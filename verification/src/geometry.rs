//! Pixel-space rectangles, the mapping of their corners into normalized device
//! coordinates, and the point-in-rectangle test.
//!
//! Normalized device coordinates are held exactly, as a numerator over the
//! viewport dimension, so that every statement about them is a statement about
//! integers. Turning a coordinate into a floating-point number is left to the
//! caller.

use vstd::prelude::*;

verus! {

/// An axis-aligned rectangle in pixel space. The origin is the top-left corner
/// of the render target and `y` grows downwards.
#[derive(Clone, Copy, Debug, PartialEq, Eq, Structural)]
pub struct Rectangle {
    pub x: u16,
    pub y: u16,
    pub width: u16,
    pub height: u16,
}

/// The size in pixels of the render target that all transforms share.
#[derive(Clone, Copy, Debug, PartialEq, Eq, Structural)]
pub struct Viewport {
    pub width: u32,
    pub height: u32,
}

/// A precondition of the configuration that does not hold.
#[derive(Clone, Copy, Debug, PartialEq, Eq, Structural)]
pub enum ConfigurationError {
    /// The viewport has no width or no height.
    ZeroViewport,
    /// A corner pair whose far corner lies before its near corner.
    MalformedRectangle,
}

/// One component of a vertex in normalized device coordinates. Its value is
/// the fraction `num / den`; `pixel` is the pixel-space coordinate that it was
/// mapped from and `den` the viewport dimension along the same axis.
#[derive(Clone, Copy, Debug, PartialEq, Eq, Structural)]
pub struct ClipCoord {
    pub pixel: u32,
    pub num: i64,
    pub den: u32,
}

impl ClipCoord {
    /// The value `num / den` lies in `[-1, 1]`.
    pub open spec fn within_unit(self) -> bool {
        -(self.den as int) <= self.num <= self.den as int
    }
}

impl Viewport {
    /// Both dimensions are non-zero.
    pub open spec fn usable(self) -> bool {
        self.width > 0 && self.height > 0
    }
}

impl Rectangle {
    /// The pixel column just past the right edge.
    pub open spec fn right(self) -> int {
        self.x + self.width
    }

    /// The pixel row just past the bottom edge.
    pub open spec fn bottom(self) -> int {
        self.y + self.height
    }

    /// The rectangle does not reach past the viewport's right or bottom edge.
    pub open spec fn inside(self, viewport: Viewport) -> bool {
        self.right() <= viewport.width && self.bottom() <= viewport.height
    }

    /// Half-open containment: the left and top edges belong to the rectangle,
    /// the right and bottom edges do not.
    pub open spec fn spec_contains(self, px: int, py: int) -> bool {
        &&& self.x <= px < self.right()
        &&& self.y <= py < self.bottom()
    }

    /// The rectangle between the corners `(x0, y0)` and `(x1, y1)`, given as
    /// `[x0, y0, x1, y1]`.
    pub open spec fn spec_from_corners(corners: Seq<u16>) -> Rectangle {
        Rectangle {
            x: corners[0],
            y: corners[1],
            width: (corners[2] - corners[0]) as u16,
            height: (corners[3] - corners[1]) as u16,
        }
    }

    /// Whether `[x0, y0, x1, y1]` names its corners in order.
    pub open spec fn corners_ordered(corners: Seq<u16>) -> bool {
        corners[0] <= corners[2] && corners[1] <= corners[3]
    }

    /// Builds the rectangle between two corners. A far corner that lies before
    /// the near one is refused rather than wrapped.
    pub fn from_corners(corners: [u16; 4]) -> (out: Result<Rectangle, ConfigurationError>)
        ensures
            Self::corners_ordered(corners@) ==> out == Ok::<Rectangle, ConfigurationError>(
                Self::spec_from_corners(corners@),
            ),
            !Self::corners_ordered(corners@) ==> out == Err::<Rectangle, ConfigurationError>(
                ConfigurationError::MalformedRectangle,
            ),
    {
        if corners[2] < corners[0] || corners[3] < corners[1] {
            Err(ConfigurationError::MalformedRectangle)
        } else {
            Ok(
                Rectangle {
                    x: corners[0],
                    y: corners[1],
                    width: corners[2] - corners[0],
                    height: corners[3] - corners[1],
                },
            )
        }
    }

    /// The distance from `near` to `far` along one axis, where `far` does not
    /// lie before `near`.
    pub open spec fn spec_span(near: u16, far: u16) -> Result<u16, ConfigurationError> {
        if near <= far {
            Ok((far - near) as u16)
        } else {
            Err(ConfigurationError::MalformedRectangle)
        }
    }

    /// Measures one axis of a corner pair. A far corner that lies before the
    /// near one is refused rather than wrapped.
    pub fn span(near: u16, far: u16) -> (out: Result<u16, ConfigurationError>)
        ensures
            out == Self::spec_span(near, far),
    {
        if far < near {
            Err(ConfigurationError::MalformedRectangle)
        } else {
            Ok(far - near)
        }
    }

    /// The rectangle at `at` with the given width and height, where both
    /// could be read. Where one could not, its error stands for the whole,
    /// that of the width first.
    pub open spec fn spec_from_bounds(
        at: (u16, u16),
        width: Result<u16, ConfigurationError>,
        height: Result<u16, ConfigurationError>,
    ) -> Result<Rectangle, ConfigurationError> {
        match width {
            Err(error) => Err(error),
            Ok(w) => match height {
                Err(error) => Err(error),
                Ok(h) => Ok(Rectangle { x: at.0, y: at.1, width: w, height: h }),
            },
        }
    }

    /// Puts a position, a width and a height together. A dimension that
    /// could not be read fails the whole.
    pub fn from_bounds(
        at: (u16, u16),
        width: Result<u16, ConfigurationError>,
        height: Result<u16, ConfigurationError>,
    ) -> (out: Result<Rectangle, ConfigurationError>)
        ensures
            out == Self::spec_from_bounds(at, width, height),
    {
        match width {
            Err(error) => Err(error),
            Ok(w) => match height {
                Err(error) => Err(error),
                Ok(h) => Ok(Rectangle { x: at.0, y: at.1, width: w, height: h }),
            },
        }
    }

    /// Decides whether a pointer position lies inside the rectangle. The
    /// position is signed; a negative coordinate is always outside.
    pub fn contains(&self, point: (i16, i16)) -> (inside: bool)
        ensures
            inside == self.spec_contains(point.0 as int, point.1 as int),
    {
        let px: i32 = point.0 as i32;
        let py: i32 = point.1 as i32;
        let left: i32 = self.x as i32;
        let top: i32 = self.y as i32;
        let right: i32 = left + self.width as i32;
        let bottom: i32 = top + self.height as i32;
        left <= px && px < right && top <= py && py < bottom
    }
}

/// The horizontal pixel coordinate `px` in normalized device coordinates:
/// `2 * px / width - 1`, which is `(2 * px - width) / width`.
pub open spec fn ndc_x(px: int, viewport: Viewport) -> ClipCoord {
    ClipCoord {
        pixel: px as u32,
        num: (2 * px - viewport.width) as i64,
        den: viewport.width,
    }
}

/// The vertical pixel coordinate `py` in normalized device coordinates, with
/// the axis flipped: `1 - 2 * py / height`, which is
/// `(height - 2 * py) / height`.
pub open spec fn ndc_y(py: int, viewport: Viewport) -> ClipCoord {
    ClipCoord {
        pixel: py as u32,
        num: (viewport.height - 2 * py) as i64,
        den: viewport.height,
    }
}

/// The twelve components of the two triangles that cover `rect`, `x` before
/// `y` for each vertex: top-left, top-right, bottom-left, then bottom-left,
/// top-right, bottom-right.
pub open spec fn clip_vertices(rect: Rectangle, viewport: Viewport) -> Seq<ClipCoord> {
    let x1 = ndc_x(rect.x as int, viewport);
    let y1 = ndc_y(rect.y as int, viewport);
    let x2 = ndc_x(rect.right(), viewport);
    let y2 = ndc_y(rect.bottom(), viewport);
    seq![x1, y1, x2, y1, x1, y2, x1, y2, x2, y1, x2, y2]
}

/// Maps the rectangle to the six vertices of its two triangles in normalized
/// device coordinates. A viewport without width or height is refused.
pub fn to_clip_vertices(rect: Rectangle, viewport: Viewport) -> (out: Result<
    [ClipCoord; 12],
    ConfigurationError,
>)
    ensures
        viewport.usable() ==> out is Ok && out->Ok_0@ == clip_vertices(rect, viewport),
        !viewport.usable() ==> out == Err::<[ClipCoord; 12], ConfigurationError>(
            ConfigurationError::ZeroViewport,
        ),
{
    if viewport.width == 0 || viewport.height == 0 {
        return Err(ConfigurationError::ZeroViewport);
    }
    let left: u32 = rect.x as u32;
    let top: u32 = rect.y as u32;
    let right: u32 = left + rect.width as u32;
    let bottom: u32 = top + rect.height as u32;
    let x1 = ClipCoord {
        pixel: left,
        num: 2 * (left as i64) - viewport.width as i64,
        den: viewport.width,
    };
    let y1 = ClipCoord {
        pixel: top,
        num: viewport.height as i64 - 2 * (top as i64),
        den: viewport.height,
    };
    let x2 = ClipCoord {
        pixel: right,
        num: 2 * (right as i64) - viewport.width as i64,
        den: viewport.width,
    };
    let y2 = ClipCoord {
        pixel: bottom,
        num: viewport.height as i64 - 2 * (bottom as i64),
        den: viewport.height,
    };
    let vertices = [x1, y1, x2, y1, x1, y2, x1, y2, x2, y1, x2, y2];
    assert(vertices@ =~= clip_vertices(rect, viewport));
    Ok(vertices)
}

/// The numerator, over the viewport width, of the horizontal centre
/// `x + width / 2` of `rect` in normalized device coordinates.
pub open spec fn center_x_num(rect: Rectangle, viewport: Viewport) -> int {
    2 * rect.x + rect.width - viewport.width
}

/// The numerator, over the viewport height, of the vertical centre
/// `y + height / 2` of `rect` in normalized device coordinates.
pub open spec fn center_y_num(rect: Rectangle, viewport: Viewport) -> int {
    viewport.height - 2 * rect.y - rect.height
}

/// The sum of the horizontal numerators of the six vertices.
pub open spec fn sum_x_num(vertices: Seq<ClipCoord>) -> int {
    vertices[0].num + vertices[2].num + vertices[4].num + vertices[6].num + vertices[8].num
        + vertices[10].num
}

/// The sum of the vertical numerators of the six vertices.
pub open spec fn sum_y_num(vertices: Seq<ClipCoord>) -> int {
    vertices[1].num + vertices[3].num + vertices[5].num + vertices[7].num + vertices[9].num
        + vertices[11].num
}

/// Twice the signed area, in numerator units, of the triangle whose corners
/// are the vertices numbered `a`, `b` and `c` (each from 0 to 5).
pub open spec fn signed_area2(vertices: Seq<ClipCoord>, a: int, b: int, c: int) -> int {
    (vertices[2 * b].num - vertices[2 * a].num) * (vertices[2 * c + 1].num - vertices[2 * a
        + 1].num) - (vertices[2 * c].num - vertices[2 * a].num) * (vertices[2 * b + 1].num
        - vertices[2 * a + 1].num)
}

/// Every component of a rectangle that lies inside the viewport is in
/// `[-1, 1]`.
pub proof fn lemma_inside_rectangle_stays_in_unit_range(rect: Rectangle, viewport: Viewport)
    requires
        viewport.usable(),
        rect.inside(viewport),
    ensures
        clip_vertices(rect, viewport).len() == 12,
        forall|i: int| 0 <= i < 12 ==> (#[trigger] clip_vertices(rect, viewport)[i]).within_unit(),
{
}

/// The centroid of the six vertices is the image of the rectangle's centre:
/// the six numerators along each axis add up to six times the centre's, over
/// the same denominator.
pub proof fn lemma_centroid_is_center(rect: Rectangle, viewport: Viewport)
    requires
        viewport.usable(),
    ensures
        sum_x_num(clip_vertices(rect, viewport)) == 6 * center_x_num(rect, viewport),
        sum_y_num(clip_vertices(rect, viewport)) == 6 * center_y_num(rect, viewport),
        forall|k: int|
            0 <= k < 6 ==> (#[trigger] clip_vertices(rect, viewport)[2 * k]).den == viewport.width,
        forall|k: int|
            0 <= k < 6 ==> (#[trigger] clip_vertices(rect, viewport)[2 * k + 1]).den
                == viewport.height,
{
}

/// A rectangle without width or without height covers no area: both of its
/// triangles have signed area zero.
pub proof fn lemma_degenerate_rectangle_has_no_area(rect: Rectangle, viewport: Viewport)
    requires
        viewport.usable(),
        rect.width == 0 || rect.height == 0,
    ensures
        signed_area2(clip_vertices(rect, viewport), 0, 1, 2) == 0,
        signed_area2(clip_vertices(rect, viewport), 3, 4, 5) == 0,
{
    let v = clip_vertices(rect, viewport);
    let dx = v[2].num - v[0].num;
    let dy = v[5].num - v[1].num;
    assert(dx == 0 || dy == 0);
    assert(dx * dy == 0) by (nonlinear_arith)
        requires
            dx == 0 || dy == 0,
    ;
    assert(0 * dy == 0);
    assert(dx * 0 == 0) by (nonlinear_arith);
    assert(signed_area2(v, 0, 1, 2) == dx * dy - 0 * 0);
    assert(dx * (-dy) == -(dx * dy)) by (nonlinear_arith);
    assert(signed_area2(v, 3, 4, 5) == dx * 0 - dx * (-dy));
}

} // verus!

use vstd::prelude::*;

use crate::float_value::FloatValue;

verus! {

/// A point of the plane, with both coordinates held as float bit patterns.
#[derive(Clone, Copy, Debug, PartialEq, Eq, Structural)]
pub struct Point {
    pub x: FloatValue,
    pub y: FloatValue,
}

impl Point {
    pub fn new(x: FloatValue, y: FloatValue) -> (r: Point)
        ensures
            r.x == x,
            r.y == y,
    {
        Point { x, y }
    }
}

/// An oriented rectangle: centre, width, height, and an optional angle in
/// degrees. A box without an angle is axis-aligned.
#[derive(Clone, Copy, Debug, PartialEq, Eq, Structural)]
pub struct BBox {
    pub xc: FloatValue,
    pub yc: FloatValue,
    pub width: FloatValue,
    pub height: FloatValue,
    pub angle: Option<FloatValue>,
}

impl BBox {
    pub fn new(
        xc: FloatValue,
        yc: FloatValue,
        width: FloatValue,
        height: FloatValue,
        angle: Option<FloatValue>,
    ) -> (r: BBox)
        ensures
            r == (BBox { xc, yc, width, height, angle }),
    {
        BBox { xc, yc, width, height, angle }
    }

    pub fn get_xc(&self) -> (r: FloatValue)
        ensures
            r == self.xc,
    {
        self.xc
    }

    pub fn get_yc(&self) -> (r: FloatValue)
        ensures
            r == self.yc,
    {
        self.yc
    }

    pub fn get_width(&self) -> (r: FloatValue)
        ensures
            r == self.width,
    {
        self.width
    }

    pub fn get_height(&self) -> (r: FloatValue)
        ensures
            r == self.height,
    {
        self.height
    }

    pub fn get_angle(&self) -> (r: Option<FloatValue>)
        ensures
            r == self.angle,
    {
        self.angle
    }
}

} // verus!

//! A named curve to be drawn into a plot.

use vstd::prelude::*;
use crate::number::Number;

verus! {

/// A colour by its red, green and blue parts.
#[derive(Clone, Copy, Debug, PartialEq, Eq, Structural)]
pub struct Color {
    pub r: u8,
    pub g: u8,
    pub b: u8,
}

impl Color {
    /// The colour of the curve that sums all peaks.
    pub open spec fn spec_blue() -> Color {
        Color { r: 0, g: 0, b: 255 }
    }

    /// The colour of the curve of one peak.
    pub open spec fn spec_magenta() -> Color {
        Color { r: 255, g: 0, b: 255 }
    }

    #[verifier::when_used_as_spec(spec_blue)]
    pub fn blue() -> (color: Color)
        ensures
            color == Color::spec_blue(),
    {
        Color { r: 0, g: 0, b: 255 }
    }

    #[verifier::when_used_as_spec(spec_magenta)]
    pub fn magenta() -> (color: Color)
        ensures
            color == Color::spec_magenta(),
    {
        Color { r: 255, g: 0, b: 255 }
    }
}

/// A point of a curve.
#[derive(Clone, Copy, Debug)]
pub struct Point {
    pub x: Number,
    pub y: Number,
}

/// A curve with its name and colour.
pub struct EguiLine {
    pub name: String,
    pub color: Color,
    pub points: Vec<Point>,
}

impl EguiLine {
    /// A curve of that name and colour, without points.
    pub fn new(name: String, color: Color) -> (line: EguiLine)
        ensures
            line.name == name,
            line.color == color,
            line.points@.len() == 0,
    {
        EguiLine { name, color, points: Vec::new() }
    }
}

/// A copy of the numbers.
pub fn copy_numbers(numbers: &Vec<Number>) -> (copy: Vec<Number>)
    ensures
        copy@ == numbers@,
{
    let mut copy: Vec<Number> = Vec::new();
    let mut i: usize = 0;
    while i < numbers.len()
        invariant
            i <= numbers@.len(),
            copy@ == numbers@.take(i as int),
        decreases numbers@.len() - i,
    {
        copy.push(numbers[i]);
        assert(copy@ == numbers@.take(i + 1));
        i = i + 1;
    }
    assert(numbers@.take(i as int) == numbers@);
    copy
}

/// A copy of the points.
pub fn copy_points(points: &Vec<Point>) -> (copy: Vec<Point>)
    ensures
        copy@ == points@,
{
    let mut copy: Vec<Point> = Vec::new();
    let mut i: usize = 0;
    while i < points.len()
        invariant
            i <= points@.len(),
            copy@ == points@.take(i as int),
        decreases points@.len() - i,
    {
        copy.push(points[i]);
        assert(copy@ == points@.take(i + 1));
        i = i + 1;
    }
    assert(points@.take(i as int) == points@);
    copy
}

} // verus!

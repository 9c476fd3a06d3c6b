use vstd::prelude::*;

verus! {

/// A width and a height.
#[derive(Clone, Copy, Debug)]
pub struct Dimensions<T> where T: Clone + Copy {
    pub w: T,
    pub h: T,
}

/// A point on the screen, in pixels.
#[derive(Clone, Copy, Debug)]
pub struct Point {
    pub x: i32,
    pub y: i32,
}

impl Point {
    /// The origin.
    pub fn new() -> (p: Self)
        ensures
            p.x == 0 && p.y == 0,
    {
        Point { x: 0, y: 0 }
    }
}

/// Where a coordinate is measured from: the low edge, the centre or the high edge.
#[derive(Clone, Copy, Debug)]
pub enum Align {
    TopLeft,
    Center,
    BotRight,
}

/// The size of the screen.
pub struct Screen(pub Dimensions<u32>);

impl Screen {
    /// The screen of the game's window: 960 by 720 pixels.
    pub fn new() -> (s: Self)
        ensures
            s.0.w == 960,
            s.0.h == 720,
    {
        Screen(Dimensions { w: 960, h: 720 })
    }
}

} // verus!

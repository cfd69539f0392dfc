use vstd::prelude::*;

verus! {

/// What a `RenderingManager` holds, as plain values.
pub struct RenderingState {
    pub rendering: bool,
    pub w: u16,
    pub h: u16,
    pub fps: i16,
    pub interval: u64,
}

/// Whether a terminal of `w` columns and `h` rows is large enough to draw in.
pub open spec fn large_enough(w: u16, h: u16) -> bool {
    w > 20 && h > 20
}

/// The number of milliseconds between two frames at `fps` frames per second:
/// `1000 / fps` rounded toward zero, then taken as a `u64` (a negative
/// quotient wraps around modulo 2^64).
pub open spec fn interval_for(fps: i16) -> u64
    recommends
        fps != 0,
{
    if fps > 0 {
        (1000int / (fps as int)) as u64
    } else {
        let q: int = 1000int / (-(fps as int));
        if q == 0 {
            0
        } else {
            (0x1_0000_0000_0000_0000int - q) as u64
        }
    }
}

/// Decides whether the screen is drawn, and how often.
#[derive(Clone, Copy)]
pub struct RenderingManager {
    pub rendering: bool,
    pub w: u16,
    pub h: u16,
    pub fps: i16,
    pub interval: u64,
}

impl View for RenderingManager {
    type V = RenderingState;

    open spec fn view(&self) -> RenderingState {
        RenderingState {
            rendering: self.rendering,
            w: self.w,
            h: self.h,
            fps: self.fps,
            interval: self.interval,
        }
    }
}

impl Default for RenderingManager {
    fn default() -> (r: Self)
        ensures
            r@ == (RenderingState { rendering: false, w: 0, h: 0, fps: 0, interval: 0 }),
    {
        RenderingManager { rendering: false, w: 0, h: 0, fps: 0, interval: 0 }
    }
}

impl RenderingManager {
    /// A manager for a `w` by `h` terminal drawing `fps` frames per second.
    pub fn new(w: u16, h: u16, fps: i16) -> (r: Self)
        requires
            fps != 0,
        ensures
            r@ == (RenderingState {
                rendering: large_enough(w, h),
                w,
                h,
                fps,
                interval: interval_for(fps),
            }),
    {
        RenderingManager {
            rendering: RenderingManager::check_from(w, h),
            w,
            h,
            fps,
            interval: RenderingManager::calculate_interval(fps),
        }
    }

    /// The width of the terminal, in columns.
    pub fn w(&self) -> (r: u16)
        ensures
            r == self@.w,
    {
        self.w
    }

    /// The height of the terminal, in rows.
    pub fn h(&self) -> (r: u16)
        ensures
            r == self@.h,
    {
        self.h
    }

    /// Milliseconds between frames at `fps` frames per second.
    pub fn calculate_interval(fps: i16) -> (r: u64)
        requires
            fps != 0,
        ensures
            r == interval_for(fps),
    {
        if fps > 0 {
            let q: i16 = 1000i16 / fps;
            q as u64
        } else {
            let d: i32 = -(fps as i32);
            let q: i32 = 1000i32 / d;
            if q == 0 {
                0
            } else {
                u64::MAX - (q as u64) + 1
            }
        }
    }

    /// Sets a new frame rate and returns the new interval.
    pub fn new_fps(&mut self, fps: i16) -> (r: u64)
        requires
            fps != 0,
        ensures
            r == interval_for(fps),
            final(self)@ == (RenderingState { fps, interval: r, ..old(self)@ }),
    {
        self.fps = fps;
        self.interval = RenderingManager::calculate_interval(fps);
        self.interval
    }

    /// The current interval between frames.
    pub fn get_fps_interval(&mut self) -> (r: u64)
        ensures
            r == old(self)@.interval,
            final(self)@ == old(self)@,
    {
        self.interval
    }

    /// Records a new terminal size and returns it.
    pub fn resize(&mut self, w: u16, h: u16) -> (r: (u16, u16))
        ensures
            r == (w, h),
            final(self)@ == (RenderingState { w, h, ..old(self)@ }),
    {
        self.w = w;
        self.h = h;
        (w, h)
    }

    /// Decides again, from the current size, whether to draw.
    pub fn check(&mut self) -> (r: bool)
        ensures
            r == large_enough(old(self)@.w, old(self)@.h),
            final(self)@ == (RenderingState { rendering: r, ..old(self)@ }),
    {
        self.rendering = RenderingManager::check_from(self.w, self.h);
        self.rendering
    }

    /// Whether a `w` by `h` terminal is large enough to draw in.
    pub fn check_from(w: u16, h: u16) -> (r: bool)
        ensures
            r == large_enough(w, h),
    {
        w > 20 && h > 20
    }

    /// Whether drawing is on.
    pub fn is_enabled(&mut self) -> (r: bool)
        ensures
            r == old(self)@.rendering,
            final(self)@ == old(self)@,
    {
        self.rendering
    }

    /// Turns drawing on or off, and returns the new setting.
    pub fn set(&mut self, new: bool) -> (r: bool)
        ensures
            r == new,
            final(self)@ == (RenderingState { rendering: new, ..old(self)@ }),
    {
        self.rendering = new;
        new
    }
}

} // verus!

//! The bird: a body that falls, tilts, bounces off the ceiling and dies on the ground.

use vstd::prelude::*;
use crate::units::{
    CEILING_LINE, CEILING_SPEED, FLAP_SPEED, FLAP_TILT, GRAVITY, GROUND_LINE, HALF_BIRD,
    KNOCKBACK_SPEED, MIN_TILT, SPEED_FLOOR, TILT_LIMIT, TILT_RATE,
};

verus! {

/// The bird. It never moves sideways, so its place is its height alone.
#[derive(Clone, Copy, Debug, PartialEq, Eq)]
pub struct Bird {
    /// Height of the centre of the bird's box, in micro-pixels.
    pub y: i64,
    /// Tilt of the bird, in micro-degrees; positive is nose up.
    pub tilt: i64,
    /// Vertical speed, in pixels per second; positive is upwards.
    pub speed: i64,
    /// What is added to the speed in each frame.
    pub acc: i64,
    /// Rate of the tilt, in degrees per second.
    pub acc_rotation: i64,
    /// Set when the bird has reached the ground; it is never moved again.
    pub terminal: bool,
}

/// The bird over the integers.
pub struct BirdView {
    pub y: int,
    pub tilt: int,
    pub speed: int,
    pub acc: int,
    pub acc_rotation: int,
    pub terminal: bool,
}

impl View for Bird {
    type V = BirdView;

    open spec fn view(&self) -> BirdView {
        BirdView {
            y: self.y as int,
            tilt: self.tilt as int,
            speed: self.speed as int,
            acc: self.acc as int,
            acc_rotation: self.acc_rotation as int,
            terminal: self.terminal,
        }
    }
}

impl BirdView {
    /// The bird as a run starts: level, at mid-height.
    pub open spec fn initial() -> BirdView {
        BirdView {
            y: 0,
            tilt: 0,
            speed: FLAP_SPEED as int,
            acc: GRAVITY as int,
            acc_rotation: TILT_RATE as int,
            terminal: false,
        }
    }

    /// What every bird of a run satisfies: its two rates are the fixed ones,
    /// it is no faster upwards than a press makes it, no steeper downwards
    /// than the steepest tilt, its box is below the ceiling, and above the
    /// ground as long as it is not terminal.
    pub open spec fn wf(self) -> bool {
        &&& self.acc == GRAVITY
        &&& self.acc_rotation == TILT_RATE
        &&& self.speed <= FLAP_SPEED
        &&& self.tilt >= MIN_TILT
        &&& self.y + HALF_BIRD <= CEILING_LINE
        &&& !self.terminal ==> self.y - HALF_BIRD > GROUND_LINE
    }

    /// The bird after a press: full speed upwards, nose up. A terminal bird
    /// does not answer.
    pub open spec fn flapped(self) -> BirdView {
        if self.terminal {
            self
        } else {
            BirdView { speed: FLAP_SPEED as int, tilt: FLAP_TILT as int, ..self }
        }
    }

    /// The bird after it ran into a pipe: thrown downwards, nose down. A
    /// terminal bird stays as it is.
    pub open spec fn knocked(self) -> BirdView {
        if self.terminal {
            self
        } else {
            BirdView { speed: KNOCKBACK_SPEED as int, tilt: MIN_TILT as int, ..self }
        }
    }

    /// Speed during a frame: gravity is added once per frame.
    pub open spec fn next_speed(self) -> int {
        self.speed + self.acc
    }

    /// Height after `dt` microseconds at the new speed, not yet held below the ceiling.
    pub open spec fn free_y(self, dt: int) -> int {
        self.y + self.next_speed() * dt
    }

    /// Tilt after `dt` microseconds, held at the steepest downward tilt.
    pub open spec fn free_tilt(self, dt: int) -> int {
        let turned: int = self.tilt + self.acc_rotation * dt;
        if turned <= MIN_TILT {
            MIN_TILT as int
        } else {
            turned
        }
    }

    /// Whether the bird's box reaches the ceiling in a frame of `dt` microseconds.
    pub open spec fn reaches_ceiling(self, dt: int) -> bool {
        self.free_y(dt) + HALF_BIRD >= CEILING_LINE
    }

    /// The bird after a frame of `dt` microseconds.
    ///
    /// Gravity is added to the speed; the bird moves at the new speed and
    /// tilts at its rate, no further down than the steepest tilt. A bird whose
    /// box reaches the ceiling is put right under it, gets a small downward
    /// speed and turns its nose up. A bird whose box reaches the ground is
    /// terminal. A terminal bird is not moved.
    pub open spec fn advanced(self, dt: int) -> BirdView {
        if self.terminal {
            self
        } else if self.reaches_ceiling(dt) {
            BirdView {
                y: CEILING_LINE - HALF_BIRD,
                tilt: self.free_tilt(dt) + FLAP_TILT,
                speed: CEILING_SPEED as int,
                ..self
            }
        } else {
            BirdView {
                y: self.free_y(dt),
                tilt: self.free_tilt(dt),
                speed: self.next_speed(),
                terminal: self.free_y(dt) - HALF_BIRD <= GROUND_LINE,
                ..self
            }
        }
    }

    /// Whether a frame can be computed within machine range: a bird that is
    /// moved must be far enough from the limits of speed and tilt.
    pub open spec fn has_room(self) -> bool {
        self.terminal || (self.speed >= SPEED_FLOOR && self.tilt <= TILT_LIMIT)
    }
}

/// A product of a speed within the limits and a span of time that fits in 32 bits.
proof fn lemma_distance_bounds(speed: int, dt: int)
    requires
        SPEED_FLOOR + GRAVITY <= speed <= FLAP_SPEED,
        0 <= dt <= u32::MAX,
    ensures
        -4_300_000_000_000_000_000 <= speed * dt <= 900_000_000_000,
{
    assert(speed * dt <= 200 * dt) by (nonlinear_arith)
        requires
            speed <= 200,
            0 <= dt,
    ;
    assert(speed * dt >= -1_000_000_005 * dt) by (nonlinear_arith)
        requires
            speed >= -1_000_000_005,
            0 <= dt,
    ;
}

/// A frame keeps a bird in order.
pub proof fn lemma_advanced_wf(bird: BirdView, dt: int)
    requires
        bird.wf(),
        0 <= dt,
    ensures
        bird.advanced(dt).wf(),
{
    assert(bird.acc_rotation * dt <= 0) by (nonlinear_arith)
        requires
            bird.acc_rotation == -60,
            0 <= dt,
    ;
}

impl Bird {
    /// The bird as a run starts.
    pub fn new() -> (bird: Bird)
        ensures
            bird@ == BirdView::initial(),
            bird@.wf(),
    {
        Bird {
            y: 0,
            tilt: 0,
            speed: FLAP_SPEED,
            acc: GRAVITY,
            acc_rotation: TILT_RATE,
            terminal: false,
        }
    }

    /// Whether the bird is far enough from the machine limits for a frame.
    pub fn has_room(&self) -> (ok: bool)
        ensures
            ok == self@.has_room(),
    {
        self.terminal || (self.speed >= SPEED_FLOOR && self.tilt <= TILT_LIMIT)
    }

    /// A press: full speed upwards, nose up, unless the bird is terminal.
    pub fn flap(&mut self)
        ensures
            final(self)@ == old(self)@.flapped(),
            old(self)@.wf() ==> final(self)@.wf(),
    {
        if !self.terminal {
            self.speed = FLAP_SPEED;
            self.tilt = FLAP_TILT;
        }
    }

    /// A hit: thrown downwards, nose down, unless the bird is terminal.
    pub fn knock(&mut self)
        ensures
            final(self)@ == old(self)@.knocked(),
            old(self)@.wf() ==> final(self)@.wf(),
    {
        if !self.terminal {
            self.speed = KNOCKBACK_SPEED;
            self.tilt = MIN_TILT;
        }
    }

    /// Moves the bird through a frame of `dt` microseconds, unless it is
    /// terminal.
    pub fn advance(&mut self, dt: u32)
        requires
            old(self)@.wf(),
            old(self)@.has_room(),
        ensures
            final(self)@ == old(self)@.advanced(dt as int),
            final(self)@.wf(),
    {
        if self.terminal {
            return;
        }
        let elapsed: i64 = dt as i64;
        self.speed = self.speed + self.acc;
        proof {
            lemma_distance_bounds(self.speed as int, dt as int);
        }
        self.y = self.y + self.speed * elapsed;
        let turned: i64 = self.tilt + self.acc_rotation * elapsed;
        if turned <= MIN_TILT {
            self.tilt = MIN_TILT;
        } else {
            self.tilt = turned;
        }
        if self.y + HALF_BIRD >= CEILING_LINE {
            self.y = CEILING_LINE - HALF_BIRD;
            self.speed = CEILING_SPEED;
            self.tilt = self.tilt + FLAP_TILT;
        }
        if self.y - HALF_BIRD <= GROUND_LINE {
            self.terminal = true;
        }
    }
}

} // verus!

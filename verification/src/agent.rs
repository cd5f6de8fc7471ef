//! Agents: sensing, steering, movement, and placement at start-up.
use vstd::prelude::*;
use rand::rngs::ThreadRng;
use crate::units::{UNIT, TURN, wrapped, wrap_shift};
use crate::params::{ParameterSet, MAX_SIDE};
use crate::field::{Field, Grid, lemma_index_in_range};
use crate::nutrient::NutrientOverlay;
use crate::trig::{sine, cosine, projected, sin, cos, project};
use crate::rng::draw;

verus! {

/// Multiplier of the seed in the draw.
pub const MIX_SEED: u64 = 0x1E37_79B9_7F4A_7C15;

/// Multiplier of the agent index in the draw.
pub const MIX_INDEX: u64 = 0x0F58_476D_1CE4_E5B9;

/// Multiplier of the frame number in the draw.
pub const MIX_FRAME: u64 = 0x14D0_49BB_1331_11EB;

/// Multiplier of the lane in the draw.
pub const MIX_LANE: u64 = 0x0B5A_D4EC_EDA1_CE2B;

/// Offset of the draw.
pub const MIX_OFFSET: u64 = 0x0123_4567_89AB_CDEF;

/// The lane of the draw that picks the sensing distance.
pub const LANE_DISTANCE: u64 = 0;

/// The lane of the draw that breaks ties between the side sensors.
pub const LANE_TIE: u64 = 1;

/// The pseudo-random draw of one agent in one frame: a function of the
/// run's seed, the agent's index, the frame number and a lane, and of
/// nothing else. It is the upper half of a 64-bit linear combination.
pub open spec fn mixed(seed: u64, index: u64, frame: u64, lane: u64) -> int {
    ((seed * MIX_SEED + index * MIX_INDEX + frame * MIX_FRAME + lane * MIX_LANE + MIX_OFFSET)
        % 0x1_0000_0000_0000_0000) / 0x1_0000_0000
}

/// The pseudo-random draw of one agent in one frame.
pub fn mix(seed: u64, index: u64, frame: u64, lane: u64) -> (r: u32)
    ensures
        r == mixed(seed, index, frame, lane),
{
    proof {
        assert(seed * MIX_SEED <= 0xFFFF_FFFF_FFFF_FFFF * 0x2000_0000_0000_0000) by (nonlinear_arith)
            requires
                0 <= seed <= 0xFFFF_FFFF_FFFF_FFFF,
                0 <= MIX_SEED <= 0x2000_0000_0000_0000,
        ;
        assert(index * MIX_INDEX <= 0xFFFF_FFFF_FFFF_FFFF * 0x2000_0000_0000_0000) by (nonlinear_arith)
            requires
                0 <= index <= 0xFFFF_FFFF_FFFF_FFFF,
                0 <= MIX_INDEX <= 0x2000_0000_0000_0000,
        ;
        assert(frame * MIX_FRAME <= 0xFFFF_FFFF_FFFF_FFFF * 0x2000_0000_0000_0000) by (nonlinear_arith)
            requires
                0 <= frame <= 0xFFFF_FFFF_FFFF_FFFF,
                0 <= MIX_FRAME <= 0x2000_0000_0000_0000,
        ;
        assert(lane * MIX_LANE <= 0xFFFF_FFFF_FFFF_FFFF * 0x2000_0000_0000_0000) by (nonlinear_arith)
            requires
                0 <= lane <= 0xFFFF_FFFF_FFFF_FFFF,
                0 <= MIX_LANE <= 0x2000_0000_0000_0000,
        ;
    }
    let a: u128 = (seed as u128) * (MIX_SEED as u128);
    let b: u128 = (index as u128) * (MIX_INDEX as u128);
    let c: u128 = (frame as u128) * (MIX_FRAME as u128);
    let d: u128 = (lane as u128) * (MIX_LANE as u128);
    let total: u128 = a + b + c + d + (MIX_OFFSET as u128);
    let low: u128 = total % 0x1_0000_0000_0000_0000;
    (low / 0x1_0000_0000) as u32
}

/// The row-major cell that holds position `(x, y)`.
pub open spec fn cell_of(x: int, y: int, width: int) -> int {
    (y / (UNIT as int)) * width + x / (UNIT as int)
}

/// The row-major cell that holds position `(x, y)`.
pub fn cell_at(x: u64, y: u64, width: u32, height: u32) -> (c: usize)
    requires
        0 < width <= MAX_SIDE,
        0 < height <= MAX_SIDE,
        x < width * UNIT,
        y < height * UNIT,
    ensures
        c == cell_of(x as int, y as int, width as int),
        c < width * height,
{
    let col: u64 = x / UNIT;
    let row: u64 = y / UNIT;
    proof {
        assert(col < width) by (nonlinear_arith)
            requires
                col == x / UNIT,
                x < width * UNIT,
                UNIT > 0,
        ;
        assert(row < height) by (nonlinear_arith)
            requires
                row == y / UNIT,
                y < height * UNIT,
                UNIT > 0,
        ;
        lemma_index_in_range(col as int, row as int, width as int, height as int);
        assert(0 <= row * width <= 32_768 * 32_768) by (nonlinear_arith)
            requires
                0 <= row < 32_768,
                0 < width <= 32_768,
        ;
    }
    (row as usize) * (width as usize) + (col as usize)
}

/// What steering decides.
#[derive(Clone, Copy, Debug, PartialEq, Eq, Structural)]
pub enum Turn {
    Left,
    Straight,
    Right,
}

/// The steering rule. The centre wins whenever no side sample is higher
/// than it; otherwise the agent turns toward the higher side sample, and
/// when both sides are equal the coin decides.
pub open spec fn steered(left: int, centre: int, right: int, coin: bool) -> Turn {
    if centre >= left && centre >= right {
        Turn::Straight
    } else if left > right {
        Turn::Left
    } else if right > left {
        Turn::Right
    } else if coin {
        Turn::Left
    } else {
        Turn::Right
    }
}

/// The steering rule.
pub fn steer(left: u128, centre: u128, right: u128, coin: bool) -> (t: Turn)
    ensures
        t == steered(left as int, centre as int, right as int, coin),
{
    if centre >= left && centre >= right {
        Turn::Straight
    } else if left > right {
        Turn::Left
    } else if right > left {
        Turn::Right
    } else if coin {
        Turn::Left
    } else {
        Turn::Right
    }
}

/// The heading after a turn.
pub open spec fn turned(phi: int, turn: Turn, turn_speed: int) -> int {
    match turn {
        Turn::Left => wrapped(phi - turn_speed, TURN as int),
        Turn::Straight => phi,
        Turn::Right => wrapped(phi + turn_speed, TURN as int),
    }
}

/// What an agent senses at cell `c`: the trail plus the nutrient there.
pub open spec fn sensed(g: Grid, overlay: Seq<u32>, c: int) -> int {
    g.cells[c] + overlay[c]
}

/// A particle with a position, in steps of `1 / UNIT` cell, and a heading,
/// in steps of `1 / TURN` turn.
#[derive(Clone, Copy, Debug, PartialEq, Eq, Structural)]
pub struct Agent {
    pub x: u64,
    pub y: u64,
    pub phi: u32,
}

impl Agent {
    /// The agent is inside the domain and its heading is reduced.
    pub open spec fn wf(self, width: int, height: int) -> bool {
        &&& self.x < width * UNIT
        &&& self.y < height * UNIT
        &&& self.phi < TURN
    }

    /// The cell under the sensor that looks `offset` away from the heading
    /// at `distance`.
    pub open spec fn probed(self, offset: int, distance: int, width: int, height: int) -> int {
        let dir = wrapped(self.phi + offset, TURN as int);
        let px = wrapped(self.x + projected(distance, cosine(dir)), width * UNIT);
        let py = wrapped(self.y + projected(distance, sine(dir)), height * UNIT);
        cell_of(px, py, width)
    }

    /// The agent one frame later: it picks its sensing distance, samples
    /// the three sensors, steers, and moves along the new heading.
    pub open spec fn stepped(
        self,
        index: u64,
        frame: u64,
        p: ParameterSet,
        g: Grid,
        overlay: Seq<u32>,
    ) -> Agent {
        let span = p.sens_range_max - p.sens_range_min + 1;
        let distance = p.sens_range_min + mixed(p.seed, index, frame, LANE_DISTANCE) % span;
        let left = sensed(g, overlay, self.probed(-p.phi_sens, distance, g.width, g.height));
        let centre = sensed(g, overlay, self.probed(0, distance, g.width, g.height));
        let right = sensed(g, overlay, self.probed(p.phi_sens as int, distance, g.width, g.height));
        let coin = mixed(p.seed, index, frame, LANE_TIE) % 2 == 0;
        let phi = turned(self.phi as int, steered(left, centre, right, coin), p.turn_speed as int);
        Agent {
            x: wrapped(self.x + projected(p.velocity as int, cosine(phi)), g.width * UNIT) as u64,
            y: wrapped(self.y + projected(p.velocity as int, sine(phi)), g.height * UNIT) as u64,
            phi: phi as u32,
        }
    }

    /// The agent placed at distance `r` and bearing `bearing` from the
    /// centre of the domain, looking along `heading`.
    pub open spec fn placed_at(width: int, height: int, r: int, bearing: int, heading: int) -> Agent {
        Agent {
            x: wrapped(width * UNIT / 2 + projected(r, cosine(bearing)), width * UNIT) as u64,
            y: wrapped(height * UNIT / 2 + projected(r, sine(bearing)), height * UNIT) as u64,
            phi: (heading % (TURN as int)) as u32,
        }
    }

    /// Whether placement can put an agent where `self` is: at some
    /// distance below `p.r_init` from the centre of the domain, at some
    /// bearing, looking along some heading.
    pub open spec fn placeable(self, p: ParameterSet) -> bool {
        exists|r: int, bearing: int, heading: int|
            0 <= r < p.r_init && 0 <= bearing < TURN && 0 <= heading < TURN && self
                == #[trigger] Agent::placed_at(
                p.width as int,
                p.height as int,
                r,
                bearing,
                heading,
            )
    }

    /// The cell the agent stands on.
    pub fn cell(&self, width: u32, height: u32) -> (c: usize)
        requires
            0 < width <= MAX_SIDE,
            0 < height <= MAX_SIDE,
            self.wf(width as int, height as int),
        ensures
            c == cell_of(self.x as int, self.y as int, width as int),
            c < width * height,
    {
        cell_at(self.x, self.y, width, height)
    }

    /// The cell under the sensor that looks `offset` away from the heading
    /// at `distance`.
    pub fn probe(&self, offset: i64, distance: u32, width: u32, height: u32) -> (c: usize)
        requires
            0 < width <= MAX_SIDE,
            0 < height <= MAX_SIDE,
            -0x1_0000_0000 <= offset <= 0x1_0000_0000,
        ensures
            c == self.probed(offset as int, distance as int, width as int, height as int),
            c < width * height,
    {
        let dir: u32 = wrap_shift(self.phi as u64, offset, TURN as u64) as u32;
        let dx: i64 = project(distance as i64, cos(dir));
        let dy: i64 = project(distance as i64, sin(dir));
        let px: u64 = wrap_shift(self.x, dx, (width as u64) * UNIT);
        let py: u64 = wrap_shift(self.y, dy, (height as u64) * UNIT);
        cell_at(px, py, width, height)
    }

    /// Advances the agent by one frame. The result depends on the agent,
    /// its index, the frame number, the parameters, the settled field and
    /// the overlay, and on nothing else.
    pub fn step(
        &self,
        index: u64,
        frame: u64,
        params: &ParameterSet,
        field: &Field,
        overlay: &NutrientOverlay,
    ) -> (r: Agent)
        requires
            params.sens_range_min <= params.sens_range_max,
            field.wf(),
            overlay.wf(),
            overlay.width == field.width,
            overlay.height == field.height,
            self.wf(field.width as int, field.height as int),
        ensures
            r == self.stepped(index, frame, *params, field@, overlay.cells@),
            r.wf(field.width as int, field.height as int),
    {
        let w: u32 = field.width;
        let h: u32 = field.height;
        let span: u64 = (params.sens_range_max - params.sens_range_min) as u64 + 1;
        let pick: u64 = mix(params.seed, index, frame, LANE_DISTANCE) as u64 % span;
        let distance: u32 = (params.sens_range_min as u64 + pick) as u32;
        let side: i64 = params.phi_sens as i64;
        let cl: usize = self.probe(-side, distance, w, h);
        let cc: usize = self.probe(0, distance, w, h);
        let cr: usize = self.probe(side, distance, w, h);
        let left: u128 = field.level(cl) as u128 + overlay.level(cl) as u128;
        let centre: u128 = field.level(cc) as u128 + overlay.level(cc) as u128;
        let right: u128 = field.level(cr) as u128 + overlay.level(cr) as u128;
        let coin: bool = mix(params.seed, index, frame, LANE_TIE) % 2 == 0;
        let turn: Turn = steer(left, centre, right, coin);
        let phi: u32 = match turn {
            Turn::Left => wrap_shift(self.phi as u64, -(params.turn_speed as i64), TURN as u64) as u32,
            Turn::Straight => self.phi,
            Turn::Right => wrap_shift(self.phi as u64, params.turn_speed as i64, TURN as u64) as u32,
        };
        let dx: i64 = project(params.velocity as i64, cos(phi));
        let dy: i64 = project(params.velocity as i64, sin(phi));
        let x: u64 = wrap_shift(self.x, dx, (w as u64) * UNIT);
        let y: u64 = wrap_shift(self.y, dy, (h as u64) * UNIT);
        Agent { x, y, phi }
    }

    /// The agent placed at distance `r` and bearing `bearing` from the
    /// centre of the domain, looking along `heading`.
    pub fn placed(width: u32, height: u32, r: u32, bearing: u32, heading: u32) -> (a: Agent)
        requires
            0 < width <= MAX_SIDE,
            0 < height <= MAX_SIDE,
        ensures
            a == Agent::placed_at(
                width as int,
                height as int,
                r as int,
                bearing as int,
                heading as int,
            ),
            a.wf(width as int, height as int),
    {
        let span_x: u64 = (width as u64) * UNIT;
        let span_y: u64 = (height as u64) * UNIT;
        let dx: i64 = project(r as i64, cos(bearing));
        let dy: i64 = project(r as i64, sin(bearing));
        let x: u64 = wrap_shift(span_x / 2, dx, span_x);
        let y: u64 = wrap_shift(span_y / 2, dy, span_y);
        Agent { x, y, phi: heading % TURN }
    }

    /// Places one agent at random: a distance below `params.r_init` from
    /// the centre, any bearing, any heading. Whatever is drawn, the agent
    /// is inside the domain.
    pub fn spawn(rng: &mut ThreadRng, params: &ParameterSet) -> (a: Agent)
        requires
            0 < params.width <= MAX_SIDE,
            0 < params.height <= MAX_SIDE,
            params.r_init > 0,
        ensures
            a.wf(params.width as int, params.height as int),
            a.placeable(*params),
    {
        let r: u32 = draw(rng, 0, params.r_init);
        let bearing: u32 = draw(rng, 0, TURN);
        let heading: u32 = draw(rng, 0, TURN);
        let a: Agent = Agent::placed(params.width, params.height, r, bearing, heading);
        assert(a == Agent::placed_at(
            params.width as int,
            params.height as int,
            r as int,
            bearing as int,
            heading as int,
        ));
        a
    }

    /// Places the whole population at random.
    pub fn spawn_population(rng: &mut ThreadRng, params: &ParameterSet) -> (agents: Vec<Agent>)
        requires
            params.valid(),
        ensures
            agents@.len() == params.n_agents,
            forall|i: int|
                0 <= i < agents@.len() ==> (#[trigger] agents@[i]).wf(
                    params.width as int,
                    params.height as int,
                ),
            forall|i: int| 0 <= i < agents@.len() ==> (#[trigger] agents@[i]).placeable(*params),
    {
        let mut agents: Vec<Agent> = Vec::new();
        let mut k: u32 = 0;
        while k < params.n_agents
            invariant
                params.valid(),
                k <= params.n_agents,
                agents@.len() == k,
                forall|i: int|
                    0 <= i < agents@.len() ==> (#[trigger] agents@[i]).wf(
                        params.width as int,
                        params.height as int,
                    ),
                forall|i: int|
                    0 <= i < agents@.len() ==> (#[trigger] agents@[i]).placeable(*params),
            decreases params.n_agents - k,
        {
            let a: Agent = Agent::spawn(rng, params);
            agents.push(a);
            k = k + 1;
        }
        agents
    }
}

} // verus!

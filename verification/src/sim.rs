//! The coordinator: one frame is an agent pass followed by a diffusion
//! pass, and nothing else changes the state of a run.
use vstd::prelude::*;
use vstd::multiset::Multiset;
use rand::rngs::ThreadRng;
use crate::units::{UNIT, TURN, lemma_wrapped_in_bounds};
use crate::params::{ParameterSet, ConfigError, MAX_SIDE};
use crate::trig::{sine, cosine, projected};
use crate::field::{Field, Grid, StepError, lemma_diffused_bounds, lemma_deposit_conserved, lemma_nonnegative, lemma_index_in_range};
use crate::nutrient::{NutrientOverlay, scattered};
use crate::balance::lemma_diffusion_fades;
use crate::agent::{Agent, cell_of};

verus! {

/// Which pass the current frame is waiting for.
#[derive(Clone, Copy, Debug, PartialEq, Eq, Structural)]
pub enum Phase {
    SteppingAgents,
    Diffusing,
}

/// The mathematical state of a run.
pub struct World {
    pub params: ParameterSet,
    pub grid: Grid,
    pub overlay: Seq<u32>,
    pub agents: Seq<Agent>,
    pub frame: u64,
    pub phase: Phase,
}

/// The cells on which the agents stand, in agent order.
pub open spec fn cells_under(agents: Seq<Agent>, width: int) -> Seq<usize> {
    Seq::new(agents.len(), |i: int| cell_of(agents[i].x as int, agents[i].y as int, width) as usize)
}

impl World {
    /// The agents after the agent pass of this frame. Each agent's new
    /// state depends on its own old state and on the settled field only,
    /// so the order in which agents are advanced does not matter.
    pub open spec fn agents_after(self) -> Seq<Agent> {
        Seq::new(
            self.agents.len(),
            |i: int|
                self.agents[i].stepped(i as u64, self.frame, self.params, self.grid, self.overlay),
        )
    }

    /// The field after the agent pass of this frame: every agent has
    /// deposited on the cell it moved to.
    pub open spec fn grid_after_agents(self) -> Grid {
        self.grid.deposited(
            cells_under(self.agents_after(), self.grid.width),
            self.params.deposit as int,
        )
    }

    /// Whether the agent pass of this frame can be completed: no cell
    /// would hold more than a cell can represent.
    #[verifier::opaque]
    pub open spec fn feasible(self) -> bool {
        self.grid_after_agents().fits()
    }

    /// The state after the agent pass.
    pub open spec fn after_agents(self) -> World {
        World {
            agents: self.agents_after(),
            grid: self.grid_after_agents(),
            phase: Phase::Diffusing,
            ..self
        }
    }

    /// The state after the diffusion pass, which completes the frame.
    pub open spec fn after_diffusion(self) -> World {
        World {
            grid: self.grid.diffused(self.params.decay as int),
            phase: Phase::SteppingAgents,
            frame: if self.frame == u64::MAX {
                0
            } else {
                (self.frame + 1) as u64
            },
            ..self
        }
    }

    /// The state one whole frame later.
    #[verifier::opaque]
    pub open spec fn after_frame(self) -> World {
        self.after_agents().after_diffusion()
    }

    /// The state `n` whole frames later.
    pub open spec fn after_frames(self, n: nat) -> World
        decreases n,
    {
        if n == 0 {
            self
        } else {
            self.after_frames((n - 1) as nat).after_frame()
        }
    }
}

/// A run is determined by where it starts: two runs that start from the
/// same state, which includes the seed and the parameters, are in the same
/// state after the same number of frames, agents and field alike.
pub proof fn lemma_runs_agree(first: World, second: World, frames: nat)
    requires
        first == second,
    ensures
        first.after_frames(frames) == second.after_frames(frames),
        first.after_frames(frames).agents == second.after_frames(frames).agents,
        first.after_frames(frames).grid == second.after_frames(frames).grid,
{
}

/// The cell under a position inside the domain is a cell of the domain.
pub proof fn lemma_cell_of_in_range(x: int, y: int, width: int, height: int)
    requires
        0 <= x < width * UNIT,
        0 <= y < height * UNIT,
    ensures
        0 <= cell_of(x, y, width) < width * height,
{
    let u = UNIT as int;
    let col = x / u;
    let row = y / u;
    assert(0 <= col < width) by (nonlinear_arith)
        requires
            col == x / u,
            0 <= x < width * u,
            u > 0,
    ;
    assert(0 <= row < height) by (nonlinear_arith)
        requires
            row == y / u,
            0 <= y < height * u,
            u > 0,
    ;
    lemma_index_in_range(col, row, width, height);
}

/// The agent pass conserves deposits: it raises the total trail by the
/// number of agents times the deposit, wherever the agents go.
pub proof fn lemma_agent_pass_conserves(w: World)
    requires
        w.grid.wf(),
        w.grid.width <= MAX_SIDE,
        w.grid.height <= MAX_SIDE,
    ensures
        w.after_agents().grid.total() == w.grid.total() + w.agents.len() * w.params.deposit,
{
    let moved = w.agents_after();
    let targets = cells_under(moved, w.grid.width);
    assert(w.grid.width * w.grid.height <= 32_768 * 32_768) by (nonlinear_arith)
        requires
            0 < w.grid.width <= 32_768,
            0 < w.grid.height <= 32_768,
    ;
    assert forall|i: int| 0 <= i < targets.len() implies targets[i] < w.grid.cells.len() by {
        let a = moved[i];
        let span_x = w.grid.width * UNIT;
        let span_y = w.grid.height * UNIT;
        assert(0 < span_x <= 32_768 * 1_000_000 && 0 < span_y <= 32_768 * 1_000_000);
        let hop_x = projected(w.params.velocity as int, cosine(a.phi as int));
        let hop_y = projected(w.params.velocity as int, sine(a.phi as int));
        lemma_wrapped_in_bounds(w.agents[i].x as int, hop_x, span_x);
        lemma_wrapped_in_bounds(w.agents[i].y as int, hop_y, span_y);
        lemma_cell_of_in_range(a.x as int, a.y as int, w.grid.width, w.grid.height);
    }
    lemma_deposit_conserved(w.grid, targets, w.params.deposit as int);
}

/// Intensities are never negative: a run that starts from a field without
/// negative cells has none after any number of frames.
pub proof fn lemma_never_negative(w: World, frames: nat)
    requires
        w.grid.wf(),
        forall|c: int| 0 <= c < w.grid.cells.len() ==> #[trigger] w.grid.cells[c] >= 0,
    ensures
        w.after_frames(frames).grid.wf(),
        w.after_frames(frames).grid.cells.len() == w.grid.cells.len(),
        forall|c: int|
            0 <= c < w.grid.cells.len() ==> #[trigger] w.after_frames(frames).grid.cells[c] >= 0,
    decreases frames,
{
    if frames > 0 {
        lemma_never_negative(w, (frames - 1) as nat);
        let v = w.after_frames((frames - 1) as nat);
        reveal(World::after_frame);
        lemma_nonnegative(
            v.grid,
            cells_under(v.agents_after(), v.grid.width),
            v.params.deposit as int,
            v.params.decay as int,
        );
    }
}

/// The trail budget of a frame: after a whole frame the field holds at
/// most the decay factor's share of what it held before plus what the
/// agents deposited. This is what keeps the field from growing without
/// bound.
pub proof fn lemma_frame_budget(w: World)
    requires
        w.grid.wf(),
        w.grid.width <= MAX_SIDE,
        w.grid.height <= MAX_SIDE,
        forall|c: int| 0 <= c < w.grid.cells.len() ==> #[trigger] w.grid.cells[c] >= 0,
    ensures
        UNIT * w.after_frame().grid.total() <= w.params.decay * (w.grid.total() + w.agents.len()
            * w.params.deposit),
{
    reveal(World::after_frame);
    lemma_agent_pass_conserves(w);
    lemma_nonnegative(
        w.grid,
        cells_under(w.agents_after(), w.grid.width),
        w.params.deposit as int,
        w.params.decay as int,
    );
    lemma_diffusion_fades(w.grid_after_agents(), w.params.decay as int);
}

/// Without agents the field only fades. Nothing is deposited, so a whole
/// frame is one diffusion step: with a decay factor of at most one it
/// leaves no cell above the peak it started from, nor below zero, and the
/// total never grows; with a decay factor below one the total of a field
/// that holds any trail strictly falls.
pub proof fn lemma_empty_run_fades(w: World, peak: int)
    requires
        w.grid.wf(),
        w.agents.len() == 0,
        w.params.decay <= UNIT,
        forall|c: int| 0 <= c < w.grid.cells.len() ==> 0 <= #[trigger] w.grid.cells[c] <= peak,
    ensures
        w.after_frame().grid == w.grid.diffused(w.params.decay as int),
        forall|c: int|
            0 <= c < w.grid.cells.len() ==> 0 <= #[trigger] w.after_frame().grid.cells[c] <= peak,
        w.after_frame().grid.total() <= w.grid.total(),
        w.params.decay < UNIT && w.grid.total() > 0 ==> w.after_frame().grid.total()
            < w.grid.total(),
{
    lemma_diffusion_fades(w.grid, w.params.decay as int);
    reveal(World::after_frame);
    let targets = cells_under(w.agents_after(), w.grid.width);
    assert(targets.to_multiset() =~= Multiset::<usize>::empty()) by {
        targets.to_multiset_ensures();
        assert(targets.to_multiset().len() == 0);
    }
    assert(w.grid_after_agents().cells =~= w.grid.cells);
    lemma_diffused_bounds(w.grid, peak, w.params.decay as int);
}

/// A run: parameters, field, overlay, agents, and the place in the frame.
pub struct Simulation {
    pub params: ParameterSet,
    pub field: Field,
    pub overlay: NutrientOverlay,
    pub agents: Vec<Agent>,
    pub frame: u64,
    pub phase: Phase,
}

impl View for Simulation {
    type V = World;

    open spec fn view(&self) -> World {
        World {
            params: self.params,
            grid: self.field@,
            overlay: self.overlay.cells@,
            agents: self.agents@,
            frame: self.frame,
            phase: self.phase,
        }
    }
}

/// Whether every agent is inside a domain of the given shape.
pub open spec fn all_inside(agents: Seq<Agent>, width: int, height: int) -> bool {
    forall|i: int| 0 <= i < agents.len() ==> (#[trigger] agents[i]).wf(width, height)
}

impl Simulation {
    /// The parameters are usable, field and overlay have the domain's
    /// shape, and every agent is inside the domain.
    pub open spec fn wf(&self) -> bool {
        &&& self.params.valid()
        &&& self.field.wf()
        &&& self.field.width == self.params.width
        &&& self.field.height == self.params.height
        &&& self.overlay.wf()
        &&& self.overlay.width == self.params.width
        &&& self.overlay.height == self.params.height
        &&& self.agents@.len() == self.params.n_agents
        &&& all_inside(self.agents@, self.params.width as int, self.params.height as int)
    }

    /// Starts a run from given agents and a given overlay, on an empty
    /// field, at frame zero. Faulty parameters are reported first, then an
    /// overlay of the wrong shape, then a wrong number of agents, then an
    /// agent outside the domain.
    pub fn assemble(params: ParameterSet, agents: Vec<Agent>, overlay: NutrientOverlay) -> (r:
        Result<Simulation, ConfigError>)
        ensures
            params.fault() is Some ==> r is Err && Some(r->Err_0) == params.fault(),
            params.valid() && !(overlay.wf() && overlay.width == params.width && overlay.height
                == params.height) ==> r is Err && r->Err_0 == ConfigError::OverlayMismatch,
            params.valid() && overlay.wf() && overlay.width == params.width && overlay.height
                == params.height && agents@.len() != params.n_agents ==> r is Err && r->Err_0
                == ConfigError::AgentCountMismatch,
            params.valid() && overlay.wf() && overlay.width == params.width && overlay.height
                == params.height && agents@.len() == params.n_agents && !all_inside(
                agents@,
                params.width as int,
                params.height as int,
            ) ==> r is Err && r->Err_0 == ConfigError::AgentOutsideDomain,
            params.valid() && overlay.wf() && overlay.width == params.width && overlay.height
                == params.height && agents@.len() == params.n_agents && all_inside(
                agents@,
                params.width as int,
                params.height as int,
            ) ==> r is Ok,
            r is Ok ==> {
                let s = r->Ok_0;
                &&& s.wf()
                &&& s.params == params
                &&& s.agents@ == agents@
                &&& s.overlay.cells@ == overlay.cells@
                &&& s.frame == 0
                &&& s.phase == Phase::SteppingAgents
                &&& forall|c: int| 0 <= c < s@.grid.cells.len() ==> #[trigger] s@.grid.cells[c] == 0
            },
    {
        match params.validate() {
            Err(e) => {
                return Err(e);
            },
            Ok(_) => {},
        }
        if !overlay.matches(params.width, params.height) {
            return Err(ConfigError::OverlayMismatch);
        }
        if agents.len() != params.n_agents as usize {
            return Err(ConfigError::AgentCountMismatch);
        }
        let span_x: u64 = (params.width as u64) * UNIT;
        let span_y: u64 = (params.height as u64) * UNIT;
        let mut i: usize = 0;
        while i < agents.len()
            invariant
                params.valid(),
                overlay.wf(),
                overlay.width == params.width,
                overlay.height == params.height,
                agents@.len() == params.n_agents,
                i <= agents@.len(),
                span_x == params.width * UNIT,
                span_y == params.height * UNIT,
                forall|k: int|
                    0 <= k < i ==> (#[trigger] agents@[k]).wf(
                        params.width as int,
                        params.height as int,
                    ),
            decreases agents@.len() - i,
        {
            let a: Agent = agents[i];
            if a.x >= span_x || a.y >= span_y || a.phi >= TURN {
                assert(!agents@[i as int].wf(params.width as int, params.height as int));
                return Err(ConfigError::AgentOutsideDomain);
            }
            i = i + 1;
        }
        match Field::new(params.width, params.height) {
            Ok(field) => Ok(
                Simulation {
                    params,
                    field,
                    overlay,
                    agents,
                    frame: 0,
                    phase: Phase::SteppingAgents,
                },
            ),
            Err(e) => Err(e),
        }
    }

    /// Starts a run as configured: the parameters are checked, the agents
    /// are placed and the nutrient zones are laid out, both at random. A
    /// run starts exactly when the parameters are usable.
    pub fn start(rng: &mut ThreadRng, params: ParameterSet) -> (r: Result<Simulation, ConfigError>)
        ensures
            r is Ok <==> params.valid(),
            r is Err ==> Some(r->Err_0) == params.fault(),
            r is Ok ==> {
                let s = r->Ok_0;
                &&& s.wf()
                &&& s.params == params
                &&& s.agents@.len() == params.n_agents
                &&& forall|i: int|
                    0 <= i < s.agents@.len() ==> (#[trigger] s.agents@[i]).placeable(params)
                &&& scattered(s.overlay.cells@, params, params.n_fix as nat)
                &&& s.frame == 0
                &&& s.phase == Phase::SteppingAgents
                &&& forall|c: int| 0 <= c < s@.grid.cells.len() ==> #[trigger] s@.grid.cells[c] == 0
            },
    {
        match params.validate() {
            Err(e) => {
                return Err(e);
            },
            Ok(_) => {},
        }
        let agents: Vec<Agent> = Agent::spawn_population(rng, &params);
        let overlay: NutrientOverlay = NutrientOverlay::scatter(rng, &params);
        Simulation::assemble(params, agents, overlay)
    }

    /// The settled field, row by row, for whoever draws it.
    pub fn settled(&self) -> (cells: &Vec<u64>)
        ensures
            cells@ == self.field.current@,
    {
        &self.field.current
    }

    /// The agent pass: every agent senses the settled field, steers, moves
    /// and deposits on the cell it arrives at. The pass is committed as a
    /// whole or not at all.
    pub fn step_agents(&mut self) -> (r: Result<(), StepError>)
        requires
            old(self).wf(),
        ensures
            final(self).wf(),
            old(self).phase != Phase::SteppingAgents ==> r == Err::<(), StepError>(
                StepError::OutOfPhase,
            ),
            old(self).phase == Phase::SteppingAgents && !old(self)@.feasible() ==> r == Err::<
                (),
                StepError,
            >(StepError::NumericDegeneracy),
            old(self).phase == Phase::SteppingAgents && old(self)@.feasible() ==> r is Ok,
            r is Ok ==> final(self)@ == old(self)@.after_agents(),
            r is Err ==> final(self)@ == old(self)@,
    {
        proof {
            reveal(World::feasible);
        }
        if self.phase != Phase::SteppingAgents {
            return Err(StepError::OutOfPhase);
        }
        let w: u32 = self.field.width;
        let h: u32 = self.field.height;
        let n: usize = self.agents.len();
        let mut moved: Vec<Agent> = Vec::new();
        let mut targets: Vec<usize> = Vec::new();
        let ghost world = self@;
        let mut i: usize = 0;
        while i < n
            invariant
                self.wf(),
                self@ == world,
                *self == *old(self),
                w == self.field.width,
                h == self.field.height,
                n == self.agents@.len(),
                i <= n,
                moved@.len() == i,
                targets@.len() == i,
                forall|k: int| 0 <= k < i ==> #[trigger] moved@[k] == world.agents_after()[k],
                forall|k: int| 0 <= k < i ==> (#[trigger] moved@[k]).wf(w as int, h as int),
                forall|k: int|
                    0 <= k < i ==> #[trigger] targets@[k] == cells_under(
                        world.agents_after(),
                        w as int,
                    )[k],
                forall|k: int| 0 <= k < i ==> #[trigger] targets@[k] < w * h,
            decreases n - i,
        {
            let a: Agent = self.agents[i].step(
                i as u64,
                self.frame,
                &self.params,
                &self.field,
                &self.overlay,
            );
            let c: usize = a.cell(w, h);
            moved.push(a);
            targets.push(c);
            i = i + 1;
        }
        assert(moved@ =~= world.agents_after());
        assert(targets@ =~= cells_under(world.agents_after(), w as int));
        match self.field.deposit(&targets, self.params.deposit) {
            Ok(_) => {
                self.agents = moved;
                self.phase = Phase::Diffusing;
                Ok(())
            },
            Err(_) => Err(StepError::NumericDegeneracy),
        }
    }

    /// The diffusion pass: the field is blurred and faded, and the frame is
    /// complete.
    pub fn diffuse(&mut self) -> (r: Result<(), StepError>)
        requires
            old(self).wf(),
        ensures
            final(self).wf(),
            old(self).phase != Phase::Diffusing ==> r == Err::<(), StepError>(
                StepError::OutOfPhase,
            ) && final(self)@ == old(self)@,
            old(self).phase == Phase::Diffusing ==> r is Ok && final(self)@ == old(
                self,
            )@.after_diffusion(),
    {
        if self.phase != Phase::Diffusing {
            return Err(StepError::OutOfPhase);
        }
        self.field.diffuse(self.params.decay);
        self.phase = Phase::SteppingAgents;
        self.frame = if self.frame == u64::MAX {
            0
        } else {
            self.frame + 1
        };
        Ok(())
    }

    /// One whole frame: the agent pass, then the diffusion pass. A frame
    /// that cannot be completed leaves the run where it was.
    pub fn advance(&mut self) -> (r: Result<(), StepError>)
        requires
            old(self).wf(),
        ensures
            final(self).wf(),
            old(self).phase != Phase::SteppingAgents ==> r == Err::<(), StepError>(
                StepError::OutOfPhase,
            ),
            old(self).phase == Phase::SteppingAgents && !old(self)@.feasible() ==> r == Err::<
                (),
                StepError,
            >(StepError::NumericDegeneracy),
            old(self).phase == Phase::SteppingAgents && old(self)@.feasible() ==> r is Ok,
            r is Ok ==> final(self)@ == old(self)@.after_frame(),
            r is Ok ==> final(self).phase == Phase::SteppingAgents,
            r is Err ==> final(self)@ == old(self)@,
    {
        proof {
            reveal(World::after_frame);
        }
        match self.step_agents() {
            Err(e) => Err(e),
            Ok(_) => self.diffuse(),
        }
    }

    /// Runs up to `frames` whole frames and returns how many were
    /// completed; it stops early only at a frame that cannot be completed.
    /// In the middle of a frame it does nothing.
    pub fn run(&mut self, frames: u64) -> (done: u64)
        requires
            old(self).wf(),
        ensures
            final(self).wf(),
            done <= frames,
            final(self)@ == old(self)@.after_frames(done as nat),
            old(self).phase != Phase::SteppingAgents ==> done == 0,
            forall|k: nat| k < done ==> (#[trigger] old(self)@.after_frames(k)).feasible(),
            old(self).phase == Phase::SteppingAgents && done < frames ==> !old(
                self,
            )@.after_frames(done as nat).feasible(),
    {
        if self.phase != Phase::SteppingAgents {
            return 0;
        }
        let ghost start = self@;
        let mut done: u64 = 0;
        while done < frames
            invariant
                self.wf(),
                self.phase == Phase::SteppingAgents,
                old(self).phase == Phase::SteppingAgents,
                start == old(self)@,
                done <= frames,
                self@ == start.after_frames(done as nat),
                forall|k: nat| k < done ==> (#[trigger] start.after_frames(k)).feasible(),
            decreases frames - done,
        {
            let ghost before = self@;
            match self.advance() {
                Ok(_) => {
                    assert(start.after_frames((done + 1) as nat) == before.after_frame());
                    done = done + 1;
                },
                Err(_) => {
                    return done;
                },
            }
        }
        done
    }
}

} // verus!

//! The session controller: a game from placement over simulation to its
//! outcome, driven by frames, clicks and confirmations.

use vstd::prelude::*;
use crate::board::{
    Board, empty_board, in_bounds, is_still_life, is_successor, lemma_population_of_empty,
    lemma_put_population, lemma_still_life_repeats, population, put, tally,
};
use crate::cell::Occupant;
use crate::grid::{CELL_EDGE, Grid, Outcome, cells_across, grid_init, verdict};

verus! {

/// The number of cells that each player may place.
pub const QUOTA: u8 = 10;

/// The number of frames that the start screen stays.
pub const SETUP_FRAMES: u8 = 16;

/// The number of frames from one generation to the next.
pub const TICK_INTERVAL: u8 = 30;

/// The number of frames in a row on which the game has to look decided
/// before it is over.
pub const STABILITY_THRESHOLD: u32 = 120;

/// Where a session stands.
#[derive(Clone, Copy, Debug, PartialEq, Eq, Structural)]
pub enum GameState {
    /// The session has just begun; the grid is shown for a few frames.
    StartScreen,
    /// Player A places cells.
    SelectScreenP1,
    /// Player B places cells.
    SelectScreenP2,
    /// The generations run.
    PlayScreen,
    /// The game is over; nothing changes any more.
    GameOverScreen,
}

/// What a click does on a cell that the other player holds.
#[derive(Clone, Copy, Debug, PartialEq, Eq, Structural)]
pub enum OccupiedPolicy {
    /// Nothing, and nothing is said.
    Ignore,
    /// Nothing, and the click is reported as rejected.
    Reject,
    /// The cell changes hands, if the quota of the player who clicked allows
    /// one more cell.
    Overwrite,
}

/// What a click has done.
#[derive(Clone, Copy, Debug, PartialEq, Eq, Structural)]
pub enum Placement {
    /// The cell now belongs to the player who clicked.
    Placed,
    /// The cell belonged to the player who clicked and is empty now.
    Removed,
    /// Nothing has changed.
    Ignored,
    /// Nothing has changed, because the other player holds the cell and the
    /// policy is `Reject`.
    Rejected,
}

/// A session as a value.
pub struct SessionView {
    pub state: GameState,
    pub board: Board,
    pub policy: OccupiedPolicy,
    /// The cells that player A has on the grid by placement.
    pub selected_a: nat,
    /// The cells that player B has on the grid by placement.
    pub selected_b: nat,
    /// The frames seen on the start screen.
    pub setup_frames: nat,
    /// The frames seen so far, counted modulo `TICK_INTERVAL`.
    pub phase: nat,
    /// The frames in a row on which the game looked decided.
    pub stability: nat,
    /// How the game stood after the latest generation.
    pub outcome: Outcome,
    /// Whether the latest generation equalled the one before it.
    pub still: bool,
}

/// The player who places cells in a state, or `Empty` where nobody does.
pub open spec fn mover(state: GameState) -> Occupant {
    match state {
        GameState::SelectScreenP1 => Occupant::PlayerA,
        GameState::SelectScreenP2 => Occupant::PlayerB,
        _ => Occupant::Empty,
    }
}

/// The index of the cell that a pixel coordinate falls into: the coordinate
/// divided by the cell edge, rounded down.
pub open spec fn cell_of_pixel(p: int) -> int {
    p / (CELL_EDGE as int)
}

/// The cells that `who` has placed; `Empty` places none.
pub open spec fn selected(s: SessionView, who: Occupant) -> nat {
    match who {
        Occupant::PlayerA => s.selected_a,
        Occupant::PlayerB => s.selected_b,
        Occupant::Empty => 0,
    }
}

/// A fresh session on a drawing surface of `width` by `height` pixels.
pub open spec fn initial(width: int, height: int, policy: OccupiedPolicy) -> SessionView {
    SessionView {
        state: GameState::StartScreen,
        board: empty_board(cells_across(width) as nat, cells_across(height) as nat),
        policy,
        selected_a: 0,
        selected_b: 0,
        setup_frames: 0,
        phase: 0,
        stability: 0,
        outcome: Outcome::Undetermined,
        still: false,
    }
}

/// What holds of every session: the counters stay in their ranges, and
/// until the generations run each player's counter is that player's
/// population, which the quota bounds.
pub open spec fn valid(s: SessionView) -> bool {
    &&& s.phase < TICK_INTERVAL
    &&& s.state == GameState::StartScreen ==> s.setup_frames < SETUP_FRAMES
    &&& s.state != GameState::GameOverScreen ==> s.stability < STABILITY_THRESHOLD
    &&& s.selected_a <= QUOTA
    &&& s.selected_b <= QUOTA
    &&& (s.state == GameState::StartScreen || s.state == GameState::SelectScreenP1 || s.state
        == GameState::SelectScreenP2) ==> {
        &&& s.selected_a == population(s.board, Occupant::PlayerA)
        &&& s.selected_b == population(s.board, Occupant::PlayerB)
    }
}

/// The session after a confirmation: placement passes from player A to
/// player B and from player B to the simulation; elsewhere nothing happens.
pub open spec fn after_confirm(s: SessionView) -> SessionView {
    match s.state {
        GameState::SelectScreenP1 => SessionView { state: GameState::SelectScreenP2, ..s },
        GameState::SelectScreenP2 => SessionView { state: GameState::PlayScreen, ..s },
        _ => s,
    }
}

/// What a click at the pixel `(x, y)` does.  The click counts only while a
/// player places cells and only inside the grid.  On a cell of the player's
/// own it removes the cell.  On an empty cell it places one, if the quota
/// allows.  On a cell of the other player the policy decides.
pub open spec fn click_result(s: SessionView, x: int, y: int) -> Placement {
    let me = mover(s.state);
    let row = cell_of_pixel(x);
    let col = cell_of_pixel(y);
    if me == Occupant::Empty || !in_bounds(s.board, row, col) {
        Placement::Ignored
    } else if s.board[row][col] == me {
        Placement::Removed
    } else if s.board[row][col] != Occupant::Empty && s.policy == OccupiedPolicy::Ignore {
        Placement::Ignored
    } else if s.board[row][col] != Occupant::Empty && s.policy == OccupiedPolicy::Reject {
        Placement::Rejected
    } else if selected(s, me) < QUOTA {
        Placement::Placed
    } else {
        Placement::Ignored
    }
}

/// The session after a click at the pixel `(x, y)`.  A removal empties the
/// cell and gives the player one placement back.  A placement fills the
/// cell and costs one; where it takes a cell from the other player, that
/// player gets one back.
pub open spec fn after_click(s: SessionView, x: int, y: int) -> SessionView {
    let me = mover(s.state);
    let row = cell_of_pixel(x);
    let col = cell_of_pixel(y);
    match click_result(s, x, y) {
        Placement::Removed => SessionView {
            board: put(s.board, row, col, Occupant::Empty),
            selected_a: (s.selected_a - tally(me, Occupant::PlayerA)) as nat,
            selected_b: (s.selected_b - tally(me, Occupant::PlayerB)) as nat,
            ..s
        },
        Placement::Placed => SessionView {
            board: put(s.board, row, col, me),
            selected_a: (s.selected_a + tally(me, Occupant::PlayerA) - tally(
                s.board[row][col],
                Occupant::PlayerA,
            )) as nat,
            selected_b: (s.selected_b + tally(me, Occupant::PlayerB) - tally(
                s.board[row][col],
                Occupant::PlayerB,
            )) as nat,
            ..s
        },
        _ => s,
    }
}

/// Whether the coming frame brings a new generation.
pub open spec fn steps_now(s: SessionView) -> bool {
    s.state == GameState::PlayScreen && s.phase == 0
}

/// The session after one frame, on which the board has become `next`.
///
/// The start screen gives way to player A's placement after `SETUP_FRAMES`
/// frames.  While the generations run, a frame that brings a new generation
/// judges it: the outcome is told from the populations, and the generation
/// is still if it equals the one before.  A frame on which the latest
/// judgement stands decided, or still, adds to the run of such frames; any
/// other frame ends the run.  When the run reaches `STABILITY_THRESHOLD`
/// the game is over, and from then on a frame changes nothing.  Until then
/// every frame is counted.
pub open spec fn after_frame(s: SessionView, next: Board) -> SessionView {
    let phase = ((s.phase + 1) % (TICK_INTERVAL as nat)) as nat;
    match s.state {
        GameState::StartScreen => SessionView {
            state: if s.setup_frames + 1 >= SETUP_FRAMES {
                GameState::SelectScreenP1
            } else {
                GameState::StartScreen
            },
            setup_frames: s.setup_frames + 1,
            phase,
            ..s
        },
        GameState::PlayScreen => {
            let outcome = if steps_now(s) {
                verdict(population(next, Occupant::PlayerA), population(next, Occupant::PlayerB))
            } else {
                s.outcome
            };
            let still = if steps_now(s) {
                next == s.board
            } else {
                s.still
            };
            let stability = if outcome != Outcome::Undetermined || still {
                s.stability + 1
            } else {
                0
            };
            SessionView {
                state: if stability >= STABILITY_THRESHOLD {
                    GameState::GameOverScreen
                } else {
                    GameState::PlayScreen
                },
                board: next,
                phase,
                stability,
                outcome,
                still,
                ..s
            }
        },
        GameState::GameOverScreen => s,
        _ => SessionView { phase, ..s },
    }
}

/// Whether one frame may take the session `s` to the session `t`: the board
/// moves on by the rule on a frame that brings a new generation and stays
/// otherwise, and all else follows from the board that came.
pub open spec fn frame_step(s: SessionView, t: SessionView) -> bool {
    &&& t == after_frame(s, t.board)
    &&& steps_now(s) ==> is_successor(s.board, t.board)
    &&& !steps_now(s) ==> t.board == s.board
}

/// The session after `frames` frames on none of which the board changes.
pub open spec fn run_still(s: SessionView, frames: nat) -> SessionView
    decreases frames,
{
    if frames == 0 {
        s
    } else {
        let before = run_still(s, (frames - 1) as nat);
        after_frame(before, before.board)
    }
}

/// An upper bound on the frames that a session on a still life has left
/// while the generations run.
pub open spec fn frames_left(s: SessionView) -> int {
    if s.still {
        STABILITY_THRESHOLD - s.stability
    } else if s.phase == 0 {
        STABILITY_THRESHOLD + 1
    } else {
        STABILITY_THRESHOLD + 1 + TICK_INTERVAL - s.phase
    }
}

/// One game, from the start screen to the outcome.
#[derive(Debug)]
pub struct Session {
    grid: Grid,
    state: GameState,
    policy: OccupiedPolicy,
    selected_a: u8,
    selected_b: u8,
    setup_frames: u8,
    phase: u8,
    stability: u32,
    outcome: Outcome,
    still: bool,
}

impl View for Session {
    type V = SessionView;

    closed spec fn view(&self) -> SessionView {
        SessionView {
            state: self.state,
            board: self.grid@,
            policy: self.policy,
            selected_a: self.selected_a as nat,
            selected_b: self.selected_b as nat,
            setup_frames: self.setup_frames as nat,
            phase: self.phase as nat,
            stability: self.stability as nat,
            outcome: self.outcome,
            still: self.still,
        }
    }
}

impl Session {
    /// The invariant of a session: its grid is well formed and `valid`
    /// holds of it.
    pub closed spec fn well_formed(&self) -> bool {
        &&& self.grid.well_formed()
        &&& valid(self@)
    }

    /// What well-formedness says of the session as a value.
    pub proof fn lemma_valid(&self)
        requires
            self.well_formed(),
        ensures
            valid(self@),
    {
    }

    /// A fresh session with an empty grid that covers a drawing surface of
    /// `width` by `height` pixels.
    pub fn new(width: u32, height: u32, policy: OccupiedPolicy) -> (session: Session)
        ensures
            session.well_formed(),
            session@ == initial(width as int, height as int, policy),
    {
        let grid = grid_init(width, height);
        proof {
            lemma_population_of_empty(grid@, Occupant::PlayerA);
            lemma_population_of_empty(grid@, Occupant::PlayerB);
        }
        Session {
            grid,
            state: GameState::StartScreen,
            policy,
            selected_a: 0,
            selected_b: 0,
            setup_frames: 0,
            phase: 0,
            stability: 0,
            outcome: Outcome::Undetermined,
            still: false,
        }
    }

    /// Where the session stands.
    pub fn state(&self) -> (state: GameState)
        ensures
            state == self@.state,
    {
        self.state
    }

    /// How the game stood after the latest generation.
    pub fn winner(&self) -> (outcome: Outcome)
        ensures
            outcome == self@.outcome,
    {
        self.outcome
    }

    /// The grid of the session.
    pub fn grid(&self) -> (grid: &Grid)
        ensures
            grid@ == self@.board,
            self.well_formed() ==> grid.well_formed(),
    {
        &self.grid
    }

    /// The cells that a player has placed; zero for `Empty`.
    pub fn count_selected(&self, who: Occupant) -> (n: u8)
        ensures
            n == selected(self@, who),
    {
        match who {
            Occupant::PlayerA => self.selected_a,
            Occupant::PlayerB => self.selected_b,
            Occupant::Empty => 0,
        }
    }

    /// Takes a confirmation.
    pub fn confirm(&mut self)
        requires
            old(self).well_formed(),
        ensures
            final(self).well_formed(),
            final(self)@ == after_confirm(old(self)@),
    {
        match self.state {
            GameState::SelectScreenP1 => {
                self.state = GameState::SelectScreenP2;
            },
            GameState::SelectScreenP2 => {
                self.state = GameState::PlayScreen;
            },
            _ => {},
        }
    }

    /// Takes a click at the pixel `(x, y)` of the drawing surface, whose
    /// origin is its top left corner.
    pub fn click(&mut self, x: i32, y: i32) -> (result: Placement)
        requires
            old(self).well_formed(),
        ensures
            final(self).well_formed(),
            result == click_result(old(self)@, x as int, y as int),
            final(self)@ == after_click(old(self)@, x as int, y as int),
    {
        let me = match self.state {
            GameState::SelectScreenP1 => Occupant::PlayerA,
            GameState::SelectScreenP2 => Occupant::PlayerB,
            _ => {
                return Placement::Ignored;
            },
        };
        if x < 0 || y < 0 {
            return Placement::Ignored;
        }
        let row = (x as u32 / CELL_EDGE) as usize;
        let col = (y as u32 / CELL_EDGE) as usize;
        let found = match self.grid.occupant(row, col) {
            Ok(found) => found,
            Err(_) => {
                return Placement::Ignored;
            },
        };
        let ghost before = self.grid@;
        proof {
            lemma_put_population(before, row as int, col as int, Occupant::Empty, Occupant::PlayerA);
            lemma_put_population(before, row as int, col as int, Occupant::Empty, Occupant::PlayerB);
            lemma_put_population(before, row as int, col as int, me, Occupant::PlayerA);
            lemma_put_population(before, row as int, col as int, me, Occupant::PlayerB);
        }
        if found == me {
            let _ = self.grid.set_occupant(row, col, Occupant::Empty);
            match me {
                Occupant::PlayerA => {
                    self.selected_a -= 1;
                },
                _ => {
                    self.selected_b -= 1;
                },
            }
            return Placement::Removed;
        }
        if found != Occupant::Empty {
            match self.policy {
                OccupiedPolicy::Ignore => {
                    return Placement::Ignored;
                },
                OccupiedPolicy::Reject => {
                    return Placement::Rejected;
                },
                OccupiedPolicy::Overwrite => {},
            }
        }
        let placed = match me {
            Occupant::PlayerA => self.selected_a,
            _ => self.selected_b,
        };
        if placed >= QUOTA {
            return Placement::Ignored;
        }
        let _ = self.grid.set_occupant(row, col, me);
        match me {
            Occupant::PlayerA => {
                self.selected_a += 1;
                if found == Occupant::PlayerB {
                    self.selected_b -= 1;
                }
            },
            _ => {
                self.selected_b += 1;
                if found == Occupant::PlayerA {
                    self.selected_a -= 1;
                }
            },
        }
        Placement::Placed
    }

    /// Takes one frame.  On a frame that brings a new generation the grid
    /// moves on by the rule; on every other frame it stays as it is.
    pub fn frame(&mut self)
        requires
            old(self).well_formed(),
        ensures
            final(self).well_formed(),
            frame_step(old(self)@, final(self)@),
    {
        match self.state {
            GameState::StartScreen => {
                self.setup_frames += 1;
                if self.setup_frames >= SETUP_FRAMES {
                    self.state = GameState::SelectScreenP1;
                }
            },
            GameState::PlayScreen => {
                if self.phase == 0 {
                    let next = self.grid.next_generation();
                    self.still = next.same_as(&self.grid);
                    self.outcome = next.check_winner();
                    self.grid = next;
                }
                if self.outcome != Outcome::Undetermined || self.still {
                    self.stability += 1;
                } else {
                    self.stability = 0;
                }
                if self.stability >= STABILITY_THRESHOLD {
                    self.state = GameState::GameOverScreen;
                }
            },
            GameState::GameOverScreen => {
                return;
            },
            _ => {},
        }
        self.phase = if self.phase + 1 == TICK_INTERVAL {
            0
        } else {
            self.phase + 1
        };
    }
}

/// A frame keeps a valid session valid, whatever the board becomes.
pub proof fn lemma_frame_keeps_valid(s: SessionView, next: Board)
    requires
        valid(s),
        s.state != GameState::PlayScreen ==> next == s.board,
    ensures
        valid(after_frame(s, next)),
{
}

/// Once the game is over, nothing changes any more: not by a frame, not by
/// a click, not by a confirmation.
pub proof fn lemma_game_over_is_final(s: SessionView, t: SessionView, x: int, y: int)
    requires
        s.state == GameState::GameOverScreen,
        frame_step(s, t),
    ensures
        t == s,
        after_click(s, x, y) == s,
        after_confirm(s) == s,
{
}

/// On a still life a frame leaves the board as it is.
pub proof fn lemma_frame_on_still_life(s: SessionView, t: SessionView)
    requires
        is_still_life(s.board),
        frame_step(s, t),
    ensures
        t == run_still(s, 1),
        t.board == s.board,
{
    if steps_now(s) {
        lemma_still_life_repeats(s.board, t.board);
    }
    assert(run_still(s, 0) == s);
}

/// While the generations run on a board that does not change, every frame
/// either ends the game or brings its end nearer.
pub proof fn lemma_run_still_progress(s: SessionView, frames: nat)
    requires
        valid(s),
        s.state == GameState::PlayScreen,
    ensures
        valid(run_still(s, frames)),
        run_still(s, frames).board == s.board,
        run_still(s, frames).state == GameState::GameOverScreen || (run_still(s, frames).state
            == GameState::PlayScreen && frames_left(run_still(s, frames)) + frames <= frames_left(
            s,
        )),
    decreases frames,
{
    if frames > 0 {
        lemma_run_still_progress(s, (frames - 1) as nat);
        let before = run_still(s, (frames - 1) as nat);
        lemma_frame_keeps_valid(before, before.board);
    }
}

/// Stasis ends the game.  Take the sessions that a run of frames passes
/// through, beginning while the generations run on a still life.  Then the
/// board is the same in all of them, and from the frame numbered
/// `TICK_INTERVAL + STABILITY_THRESHOLD` on the game is over.
pub proof fn lemma_stasis_ends_game(trace: Seq<SessionView>, i: int)
    requires
        0 <= i < trace.len(),
        valid(trace[0]),
        trace[0].state == GameState::PlayScreen,
        is_still_life(trace[0].board),
        forall|k: int| 0 <= k < trace.len() - 1 ==> frame_step(#[trigger] trace[k], trace[k + 1]),
    ensures
        trace[i].board == trace[0].board,
        trace[i] == run_still(trace[0], i as nat),
        i >= TICK_INTERVAL + STABILITY_THRESHOLD ==> trace[i].state == GameState::GameOverScreen,
    decreases i,
{
    if i > 0 {
        lemma_stasis_ends_game(trace, i - 1);
        assert(frame_step(trace[i - 1], trace[i - 1 + 1]));
        lemma_frame_on_still_life(trace[i - 1], trace[i]);
        assert(run_still(trace[i - 1], 0) == trace[i - 1]);
    }
    lemma_run_still_progress(trace[0], i as nat);
}

} // verus!

//! The game itself: board, players, dice, and the occupancy resolver.
//!
//! Every method is specified by — and proved equal to — the corresponding
//! function of [`crate::model`] on the game's view.

use crate::cell::{Cell, CellType, PowerupType};
use crate::error::GameError;
use crate::model::{
    abnormal_spec, board_spec, clamp_pos, clear_all, clear_at, detach, dice_spec, empty_view,
    fresh_cell, fuel_of, lemma_move_to_props, lemma_move_to_shape, lemma_place_all_props,
    lemma_place_rec_shape,
    move_to_spec, place_all, place_rec, players_spec, powerup_spec, roll_spec, seed_players,
    set_powerups, simulator_spec, GameV, MAX_CELLS,
};
use crate::model::{occupy_at, place_offset};
use crate::player::{consumed, granted, holds, Player};
use vstd::arithmetic::div_mod::lemma_mod_multiples_basic;
use vstd::prelude::*;

verus! {

/// The whole game: the board's cells, its width, the player arena, the
/// cyclic dice sequence and the count of rolls taken so far.
pub struct Game {
    pub board: Vec<Cell>,
    pub width: usize,
    pub players: Vec<Player>,
    pub dice: Vec<usize>,
    pub turns: usize,
}

impl View for Game {
    type V = GameV;

    open spec fn view(&self) -> GameV {
        GameV {
            board: self.board@,
            width: self.width as nat,
            players: self.players@,
            dice: self.dice@,
            turns: self.turns as nat,
        }
    }
}

impl Game {
    /// A game with no board, no players and no dice.
    pub fn empty() -> (g: Game)
        ensures
            g@ == empty_view(),
            g@.wf(),
    {
        let g = Game {
            board: Vec::new(),
            width: 0,
            players: Vec::new(),
            dice: Vec::new(),
            turns: 0,
        };
        proof {
            assert(g@ =~~= empty_view());
        }
        g
    }

    /// (Re)size the board to `width * height` fresh cells.  Every prior
    /// cell and every player is discarded; the dice sequence and the roll
    /// count survive.  A zero dimension or an unaddressable cell count is
    /// refused with nothing changed.
    pub fn board(&mut self, width: usize, height: usize) -> (r: Result<(), GameError>)
        ensures
            final(self)@ == board_spec(old(self)@, width, height).0,
            r == board_spec(old(self)@, width, height).1,
            old(self)@.wf() ==> final(self)@.wf(),
            r is Ok ==> final(self)@.wf(),
    {
        if width == 0 || height == 0 {
            return Err(GameError::ZeroDimension);
        }
        let total = match width.checked_mul(height) {
            Some(t) => t,
            None => {
                return Err(GameError::BoardTooLarge);
            },
        };
        if total > MAX_CELLS {
            return Err(GameError::BoardTooLarge);
        }
        let mut cells: Vec<Cell> = Vec::new();
        let mut i: usize = 0;
        while i < total
            invariant
                i <= total,
                cells@.len() == i,
                forall|k: int| 0 <= k < i ==> cells@[k] == fresh_cell(),
            decreases total - i,
        {
            cells.push(Cell::new());
            i += 1;
        }
        self.board = cells;
        self.width = width;
        self.players = Vec::new();
        proof {
            assert(self@.board =~= Seq::new((width * height) as nat, |i: int| fresh_cell()));
            assert(self@ =~~= board_spec(old(self)@, width, height).0);
            lemma_mod_multiples_basic(height as int, width as int);
            assert forall|j: int| 0 <= j < self@.board.len() implies match (
            #[trigger] self@.board[j]).occupant {
                Some(q) => q < self@.players.len() && self@.players[q as int].position == j + 1,
                None => true,
            } by {
                assert(self@.board[j] == fresh_cell());
            }
            assert(self@.wf());
        }
        Ok(())
    }

    /// Replace the cyclic dice sequence.  The roll count is kept; rolls
    /// continue from it, modulo the new length.
    pub fn dice(&mut self, values: Vec<usize>)
        ensures
            final(self)@ == dice_spec(old(self)@, values@),
            old(self)@.wf() ==> final(self)@.wf(),
    {
        self.dice = values;
        proof {
            assert(self@ =~~= dice_spec(old(self)@, self.dice@));
        }
    }

    /// Consume the next die of the cyclic sequence.  An empty sequence
    /// has nothing to roll.
    pub fn roll(&mut self) -> (r: Result<usize, GameError>)
        ensures
            final(self)@ == roll_spec(old(self)@).0,
            r == roll_spec(old(self)@).1,
            old(self)@.wf() ==> final(self)@.wf(),
    {
        let n = self.dice.len();
        if n == 0 {
            return Err(GameError::EmptyDice);
        }
        let idx = self.turns % n;
        let die = self.dice[idx];
        self.turns = (idx + 1) % n;
        proof {
            assert(self@ =~~= roll_spec(old(self)@).0);
        }
        Ok(die)
    }

    /// Declare a snake or ladder: cell `from` gets offset `to - from` and
    /// the cell type its sign dictates (negative: snake, positive:
    /// ladder, zero: normal).  An index off the board is refused with no
    /// cell touched.
    pub fn abnormal_cell(&mut self, from: usize, to: usize) -> (r: Result<(), GameError>)
        ensures
            final(self)@ == abnormal_spec(old(self)@, from, to).0,
            r == abnormal_spec(old(self)@, from, to).1,
            old(self)@.wf() ==> final(self)@.wf(),
    {
        let len = self.board.len();
        if from < 1 || from > len || to < 1 || to > len {
            return Err(GameError::OutOfRange);
        }
        proof {
            // the cell count is capped, so the offset fits an i32
            if old(self)@.wf() {
                assert(len <= MAX_CELLS);
            }
        }
        if len > MAX_CELLS {
            // a board this large is never built by `board`; leave every
            // cell alone rather than let an offset overflow
            return Err(GameError::BoardTooLarge);
        }
        let cell = self.board[from - 1];
        let offset: i32 = if to >= from {
            (to - from) as i32
        } else {
            -((from - to) as i32)
        };
        let cell_type = if offset < 0 {
            CellType::SnakeCell
        } else if offset > 0 {
            CellType::LadderCell
        } else {
            CellType::NormalCell
        };
        self.board[from - 1] = Cell { cell_type, offset, ..cell };
        proof {
            assert(self@ =~~= abnormal_spec(old(self)@, from, to).0);
        }
        Ok(())
    }

    /// Assign `powerup_type` to every listed cell, in list order,
    /// overwriting any previous powerup there.  One index off the board
    /// refuses the whole command: no cell, listed or not, is touched.
    pub fn powerup_cells(&mut self, powerup_type: PowerupType, list: &Vec<usize>) -> (r: Result<
        (),
        GameError,
    >)
        ensures
            final(self)@ == powerup_spec(old(self)@, powerup_type, list@).0,
            r == powerup_spec(old(self)@, powerup_type, list@).1,
            old(self)@.wf() ==> final(self)@.wf(),
    {
        let len = self.board.len();
        let mut i: usize = 0;
        while i < list.len()
            invariant
                i <= list@.len(),
                len == self.board@.len(),
                forall|k: int| 0 <= k < i ==> 1 <= (#[trigger] list@[k]) <= len,
            decreases list@.len() - i,
        {
            let pos = list[i];
            if pos < 1 || pos > len {
                return Err(GameError::OutOfRange);
            }
            i += 1;
        }
        let mut i: usize = 0;
        while i < list.len()
            invariant
                i <= list@.len(),
                len == self.board@.len(),
                forall|k: int| 0 <= k < list@.len() ==> 1 <= (#[trigger] list@[k]) <= len,
                self@ == (GameV {
                    board: set_powerups(old(self)@.board, powerup_type, list@, i as int),
                    ..old(self)@
                }),
            decreases list@.len() - i,
        {
            let pos = list[i];
            let cell = self.board[pos - 1];
            self.board[pos - 1] = Cell { powerup: powerup_type, ..cell };
            i += 1;
            proof {
                assert(self@ =~~= (GameV {
                    board: set_powerups(old(self)@.board, powerup_type, list@, i as int),
                    ..old(self)@
                }));
            }
        }
        proof {
            assert(self@ =~~= powerup_spec(old(self)@, powerup_type, list@).0);
            if old(self)@.wf() {
                lemma_set_powerups_occupants(
                    old(self)@.board,
                    powerup_type,
                    list@,
                    list@.len() as int,
                );
                assert forall|j: int|
                    0 <= j < self@.board.len() implies match (#[trigger] self@.board[j]).occupant {
                    Some(q) => q < self@.players.len() && self@.players[q as int].position == j + 1,
                    None => true,
                } by {
                    assert(self@.board[j].occupant == old(self)@.board[j].occupant);
                }
                assert(self@.wf());
            }
        }
        Ok(())
    }

    /// The occupancy resolver, bounded by `fuel`.  Mirrors
    /// [`place_rec`] step for step; see there for the rules.
    #[verifier::rlimit(100)]
    fn place_fuel(&mut self, p: usize, pos: usize, fuel: usize) -> (ok: bool)
        ensures
            final(self)@ == place_rec(old(self)@, p as int, pos as int, fuel as nat).0,
            ok == place_rec(old(self)@, p as int, pos as int, fuel as nat).1,
        decreases fuel, 1int,
    {
        if fuel == 0 {
            return false;
        }
        if p >= self.players.len() {
            return false;
        }
        if pos < 1 || pos > self.board.len() {
            return false;
        }
        let ghost v0 = self@;
        let cell = self.board[pos - 1];
        let size = self.board.len();
        let mut ok1 = true;
        match cell.occupant {
            Some(q) => {
                if q != p {
                    if q < self.players.len() {
                        self.board[pos - 1] = Cell { occupant: None, ..cell };
                        proof {
                            assert(self@ =~= (GameV {
                                board: clear_at(v0.board, pos as int),
                                ..v0
                            }));
                        }
                        if pos < size {
                            ok1 = self.place_fuel(q, pos + 1, fuel - 1);
                        } else {
                            // the bump target lies beyond the board; the
                            // resolution of the resident is skipped
                            ok1 = false;
                        }
                    } else {
                        ok1 = false;
                    }
                }
            },
            None => {},
        }
        let ghost step1 = match cell.occupant {
            Some(q) => {
                if q == p {
                    (v0, true)
                } else if q < v0.players.len() {
                    place_rec(
                        GameV { board: clear_at(v0.board, pos as int), ..v0 },
                        q as int,
                        pos as int + 1,
                        (fuel - 1) as nat,
                    )
                } else {
                    (v0, false)
                }
            },
            None => (v0, true),
        };
        proof {
            match cell.occupant {
                Some(q) => {
                    if q != p && q < v0.players.len() {
                        lemma_place_rec_shape(
                            GameV { board: clear_at(v0.board, pos as int), ..v0 },
                            q as int,
                            pos as int + 1,
                            (fuel - 1) as nat,
                        );
                    }
                },
                None => {},
            }
            assert(self@ == step1.0 && ok1 == step1.1);
            assert(self@.players.len() == v0.players.len());
            assert(self@.board.len() == v0.board.len());
        }
        // settle: mark the cell, record the position
        let cur = self.board[pos - 1];
        self.board[pos - 1] = Cell { occupant: Some(p), ..cur };
        let mut pl = self.players[p];
        pl.set_position(pos);
        self.players[p] = pl;
        proof {
            assert(self@ =~= (GameV {
                board: occupy_at(step1.0.board, pos as int, p),
                players: step1.0.players.update(
                    p as int,
                    Player { position: pos, ..step1.0.players[p as int] },
                ),
                ..step1.0
            }));
        }
        let ghost v2 = self@;
        // powerup pickup
        if cell.powerup != PowerupType::Nothing {
            let mut pl2 = self.players[p];
            pl2.add_powerup(cell.powerup);
            self.players[p] = pl2;
            proof {
                assert(self@ =~= (GameV {
                    players: v2.players.update(p as int, granted(v2.players[p as int], cell.powerup)),
                    ..v2
                }));
            }
        }
        let r4 = self.offset_step(cell, p, pos, size, fuel);
        let ok = ok1 && r4;
        proof {
            assert(self@ == place_rec(v0, p as int, pos as int, fuel as nat).0);
            assert(ok == place_rec(v0, p as int, pos as int, fuel as nat).1);
        }
        ok
    }

    /// The special-cell step of the resolver; mirrors
    /// [`crate::model::place_offset`].
    #[verifier::rlimit(80)]
    fn offset_step(&mut self, cell: Cell, p: usize, pos: usize, size: usize, fuel: usize) -> (ok:
        bool)
        requires
            fuel >= 1,
            1 <= pos <= old(self)@.board.len(),
            pos <= size,
            p < old(self)@.players.len(),
        ensures
            final(self)@ == place_offset(
                old(self)@,
                cell,
                p as int,
                pos as int,
                size as int,
                fuel as nat,
            ).0,
            ok == place_offset(old(self)@, cell, p as int, pos as int, size as int, fuel as nat).1,
        decreases fuel, 0int,
    {
        let ghost v3 = self@;
        let off = cell.offset;
        if off == 0 {
            return true;
        }
        if off < 0 {
            let mut pl3 = self.players[p];
            if pl3.consume_powerup(PowerupType::Antivenom) {
                // antivenom spent: the snake is refused, the player stays
                self.players[p] = pl3;
                proof {
                    assert(self@ =~= (GameV {
                        players: v3.players.update(
                            p as int,
                            consumed(v3.players[p as int], PowerupType::Antivenom),
                        ),
                        ..v3
                    }));
                }
                return true;
            }
            let o = (-(off as i64)) as usize;
            let np = if o >= pos {
                1
            } else {
                pos - o
            };
            proof {
                assert(np == clamp_pos(pos as int + off as int, size as int));
            }
            let c3 = self.board[pos - 1];
            self.board[pos - 1] = Cell { occupant: None, ..c3 };
            proof {
                assert(self@ =~= (GameV { board: clear_at(v3.board, pos as int), ..v3 }));
            }
            return self.place_fuel(p, np, fuel - 1);
        }
        let o = off as usize;
        let np = if o > size - pos {
            size
        } else {
            pos + o
        };
        proof {
            assert(np == clamp_pos(pos as int + off as int, size as int));
        }
        let mut pl3 = self.players[p];
        let np2 = if pl3.consume_powerup(PowerupType::Escalator) {
            // escalator spent: the climb doubles
            self.players[p] = pl3;
            proof {
                assert(self@ =~= (GameV {
                    players: v3.players.update(
                        p as int,
                        consumed(v3.players[p as int], PowerupType::Escalator),
                    ),
                    ..v3
                }));
            }
            if o > size - np {
                size
            } else {
                np + o
            }
        } else {
            np
        };
        let ghost v4 = self@;
        let c3 = self.board[pos - 1];
        self.board[pos - 1] = Cell { occupant: None, ..c3 };
        proof {
            assert(self@ =~= (GameV { board: clear_at(v4.board, pos as int), ..v4 }));
        }
        let r = self.place_fuel(p, np2, fuel - 1);
        proof {
            assert(self@ == place_offset(
                v3,
                cell,
                p as int,
                pos as int,
                size as int,
                fuel as nat,
            ).0);
        }
        r
    }

    /// Place a player on `pos` through the occupancy resolver: the player
    /// is lifted off its current cell, then lands on `pos` with every
    /// displacement, powerup and offset effect applied.  Returns whether
    /// the resolution ran to completion; a degraded one (fuel out, a
    /// target off the board, an unknown handle) stops silently where it
    /// is.
    pub fn move_to(&mut self, player: usize, pos: usize) -> (ok: bool)
        ensures
            final(self)@ == move_to_spec(old(self)@, player as int, pos as int).0,
            ok == move_to_spec(old(self)@, player as int, pos as int).1,
            old(self)@.wf() ==> final(self)@.wf(),
    {
        if player >= self.players.len() {
            return false;
        }
        let ppos = self.players[player].get_position();
        if 1 <= ppos && ppos <= self.board.len() {
            let c = self.board[ppos - 1];
            let is_here = match c.occupant {
                Some(q) => q == player,
                None => false,
            };
            if is_here {
                self.board[ppos - 1] = Cell { occupant: None, ..c };
            }
        }
        proof {
            assert(self@ =~~= detach(old(self)@, player as int));
        }
        let fuel = self.board.len();
        let ok = self.place_fuel(player, pos, fuel);
        proof {
            if old(self)@.wf() {
                lemma_move_to_props(old(self)@, player as int, pos as int);
            }
        }
        ok
    }

    /// Create `count` players with identities 'A', 'B', ... and walk each
    /// onto cell 1 in identity order, so that a later player bumps the
    /// earlier ones forward.  The old arena ceases to exist: every
    /// occupant mark is wiped first.  More than 26 players, or any player
    /// on a board with no cells, is refused with nothing changed.
    pub fn players(&mut self, player_count: usize) -> (r: Result<(), GameError>)
        ensures
            final(self)@ == players_spec(old(self)@, player_count).0,
            r == players_spec(old(self)@, player_count).1,
            old(self)@.wf() ==> final(self)@.wf(),
    {
        if player_count > 26 {
            return Err(GameError::TooManyPlayers);
        }
        if player_count > 0 && self.board.len() == 0 {
            return Err(GameError::OutOfRange);
        }
        let ghost v0 = self@;
        let mut j: usize = 0;
        let blen = self.board.len();
        while j < blen
            invariant
                j <= blen,
                blen == self.board@.len(),
                self@.players == v0.players,
                self@.width == v0.width,
                self@.dice == v0.dice,
                self@.turns == v0.turns,
                forall|k: int|
                    0 <= k < j ==> (#[trigger] self.board@[k]) == (Cell {
                        occupant: None,
                        ..v0.board[k]
                    }),
                forall|k: int| j <= k < blen ==> (#[trigger] self.board@[k]) == v0.board[k],
            decreases blen - j,
        {
            let c = self.board[j];
            self.board[j] = Cell { occupant: None, ..c };
            j += 1;
        }
        proof {
            assert(self@.board =~= clear_all(v0.board));
        }
        let mut ps: Vec<Player> = Vec::new();
        let mut i: usize = 0;
        while i < player_count
            invariant
                i <= player_count <= 26,
                ps@.len() == i,
                forall|k: int| 0 <= k < i ==> ps@[k] == seed_players(player_count as int)[k],
            decreases player_count - i,
        {
            ps.push(Player::new(65 + (i as u8)));
            i += 1;
        }
        self.players = ps;
        let ghost vseed = GameV {
            board: clear_all(v0.board),
            players: seed_players(player_count as int),
            ..v0
        };
        proof {
            assert(self@.players =~= seed_players(player_count as int));
            assert(self@ =~~= vseed);
            assert(place_all(vseed, 0) == vseed);
        }
        let mut i: usize = 0;
        while i < player_count
            invariant
                i <= player_count,
                self@ == place_all(vseed, i as int),
                self@.players.len() == player_count,
                self@.board.len() == vseed.board.len(),
            decreases player_count - i,
        {
            self.move_to(i, 1);
            i += 1;
            proof {
                lemma_move_to_shape(place_all(vseed, i as int - 1), i as int - 1, 1);
            }
        }
        proof {
            if v0.wf() {
                assert(vseed.wf());
                lemma_place_all_props(vseed, player_count as int);
            }
        }
        Ok(())
    }

    /// One turn for one player: consume the next die and move the player
    /// that many cells forward, bounded to the board, with every landing
    /// effect applied by the resolver.  Only an empty dice sequence is an
    /// error; a degraded placement is skipped silently, the die still
    /// spent.
    pub fn simulator(&mut self, player: usize) -> (r: Result<(), GameError>)
        ensures
            final(self)@ == simulator_spec(old(self)@, player as int).0,
            r == simulator_spec(old(self)@, player as int).1,
            old(self)@.wf() ==> final(self)@.wf(),
    {
        let die = match self.roll() {
            Ok(d) => d,
            Err(e) => {
                return Err(e);
            },
        };
        let len = self.board.len();
        let target: usize = if player < self.players.len() {
            let pos = self.players[player].get_position();
            match pos.checked_add(die) {
                Some(s) => {
                    if s > len {
                        len
                    } else if s < 1 {
                        1
                    } else {
                        s
                    }
                },
                None => len,
            }
        } else {
            // an unknown handle moves nowhere; any target does
            1
        };
        proof {
            let v1 = roll_spec(old(self)@).0;
            if player < self.players.len() {
                assert(target == clamp_pos(
                    v1.players[player as int].position + roll_spec(old(self)@).1.unwrap(),
                    v1.board.len() as int,
                ));
            }
        }
        self.move_to(player, target);
        proof {
            assert(self@ =~~= simulator_spec(old(self)@, player as int).0);
        }
        Ok(())
    }
}

/// Setting powerups never touches an occupant mark or an offset.
proof fn lemma_set_powerups_occupants(b: Seq<Cell>, kind: PowerupType, cells: Seq<usize>, k: int)
    requires
        0 <= k <= cells.len(),
        forall|t: int| 0 <= t < cells.len() ==> 1 <= (#[trigger] cells[t]) <= b.len(),
    ensures
        set_powerups(b, kind, cells, k).len() == b.len(),
        forall|j: int|
            0 <= j < b.len() ==> (#[trigger] set_powerups(b, kind, cells, k)[j]).occupant
                == b[j].occupant && set_powerups(b, kind, cells, k)[j].offset == b[j].offset,
    decreases k,
{
    if k <= 0 {
    } else {
        lemma_set_powerups_occupants(b, kind, cells, k - 1);
    }
}

} // verus!

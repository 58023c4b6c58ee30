//! The mathematical model of the game.
//!
//! Every operation of [`crate::game::Game`] is specified as a function on
//! [`GameV`], a ghost view of the whole game state.  The heart is
//! [`place_rec`], the occupancy resolver: a fuel-bounded recursion that
//! settles a player on a cell, bumping a resident forward, picking up the
//! cell's powerup, and following snake and ladder offsets.

use crate::cell::{type_of_offset, Cell, CellType, PowerupType};
use crate::error::GameError;
use crate::player::{consumed, granted, holds, Player};
use vstd::prelude::*;

verus! {

/// The largest cell count a board may have.  Keeping the count within
/// `i32` range lets every offset between two cells fit in a `Cell`'s
/// `i32` offset field.
pub const MAX_CELLS: usize = 0x7fff_ffff;

/// Ghost view of a whole game: the board's cells, its width, the player
/// arena, the cyclic dice sequence and the count of rolls taken so far.
#[verifier::ext_equal]
pub struct GameV {
    pub board: Seq<Cell>,
    pub width: nat,
    pub players: Seq<Player>,
    pub dice: Seq<usize>,
    pub turns: nat,
}

/// A cell in its initial state: unoccupied, normal, no powerup.
pub open spec fn fresh_cell() -> Cell {
    Cell {
        occupant: None,
        cell_type: CellType::NormalCell,
        offset: 0,
        powerup: PowerupType::Nothing,
    }
}

/// The view of a newly created game: no board, no players, no dice.
pub open spec fn empty_view() -> GameV {
    GameV {
        board: Seq::empty(),
        width: 0,
        players: Seq::empty(),
        dice: Seq::empty(),
        turns: 0,
    }
}

/// `b` with the occupant mark of 1-based cell `pos` cleared.
pub open spec fn clear_at(b: Seq<Cell>, pos: int) -> Seq<Cell> {
    b.update(pos - 1, Cell { occupant: None, ..b[pos - 1] })
}

/// `b` with player handle `p` marked as the occupant of 1-based cell `pos`.
pub open spec fn occupy_at(b: Seq<Cell>, pos: int, p: usize) -> Seq<Cell> {
    b.update(pos - 1, Cell { occupant: Some(p), ..b[pos - 1] })
}

/// `raw` bounded to the positions of a board of `size` cells: at least 1,
/// at most `size`.
pub open spec fn clamp_pos(raw: int, size: int) -> int {
    if raw < 1 {
        1
    } else if raw > size {
        size
    } else {
        raw
    }
}

/// No cell of `b` carries player handle `p` as its occupant.
pub open spec fn absent(b: Seq<Cell>, p: int) -> bool {
    forall|j: int| 0 <= j < b.len() ==> (#[trigger] b[j].occupant) != Some(p as usize)
}

/// Well-formedness of a board and player arena together:
/// every occupant mark is a valid handle whose player stands exactly there,
/// and every player's position lies on the board.
pub open spec fn wf_bp(b: Seq<Cell>, ps: Seq<Player>) -> bool {
    &&& forall|j: int|
        0 <= j < b.len() ==> match #[trigger] b[j].occupant {
            Some(q) => q < ps.len() && ps[q as int].position == j + 1,
            None => true,
        }
    &&& forall|i: int| 0 <= i < ps.len() ==> 1 <= (#[trigger] ps[i].position) <= b.len()
}

impl GameV {
    /// Well-formedness of the whole game state.
    pub open spec fn wf(self) -> bool {
        &&& wf_bp(self.board, self.players)
        &&& self.players.len() <= usize::MAX
        &&& self.width == 0 ==> self.board.len() == 0
        &&& self.width > 0 ==> self.board.len() % self.width == 0
        &&& self.board.len() <= MAX_CELLS
    }
}

/// The fuel handed to the occupancy resolver: one step per cell of the
/// board.  A board whose offsets form a cycle exhausts it, and the
/// resolution reports an anomaly instead of recursing forever.
pub open spec fn fuel_of(v: GameV) -> nat {
    v.board.len()
}

/// The occupancy resolver.  Settles player handle `p` on 1-based cell
/// `pos`:
/// 1. a different resident of `pos` is first bumped forward to `pos + 1`
///    (recursively, with all of its own effects);
/// 2. `p` is marked as the occupant of `pos` and its position updated;
/// 3. a powerup on the cell joins `p`'s inventory;
/// 4. a nonzero offset moves `p` on to `pos + offset` (bounded to the
///    board): antivenom, when held, is spent to refuse a snake; escalator,
///    when held, is spent to double a ladder's climb.
///
/// The second component is `false` when the resolution was degraded: the
/// fuel ran out, a target fell off the board, or a handle was unknown.
/// Such a step is skipped silently; the state reached so far stands.
pub open spec fn place_rec(v: GameV, p: int, pos: int, fuel: nat) -> (GameV, bool)
    decreases fuel, 1int,
{
    if fuel == 0 {
        (v, false)
    } else if !(0 <= p < v.players.len()) {
        (v, false)
    } else if !(1 <= pos <= v.board.len()) {
        (v, false)
    } else {
        let cell = v.board[pos - 1];
        let size = v.board.len() as int;
        let step1 = match cell.occupant {
            Some(q) => {
                if q == p {
                    (v, true)
                } else if q < v.players.len() {
                    place_rec(
                        GameV { board: clear_at(v.board, pos), ..v },
                        q as int,
                        pos + 1,
                        (fuel - 1) as nat,
                    )
                } else {
                    (v, false)
                }
            },
            None => (v, true),
        };
        let v1 = step1.0;
        let ok1 = step1.1;
        let v2 = GameV {
            board: occupy_at(v1.board, pos, p as usize),
            players: v1.players.update(p, Player { position: pos as usize, ..v1.players[p] }),
            ..v1
        };
        let v3 = if cell.powerup != PowerupType::Nothing {
            GameV { players: v2.players.update(p, granted(v2.players[p], cell.powerup)), ..v2 }
        } else {
            v2
        };
        let step4 = place_offset(v3, cell, p, pos, size, fuel);
        (step4.0, ok1 && step4.1)
    }
}

/// The special-cell step of the resolver: apply the landed-on cell's
/// offset to the player now settled on `pos`, with the powerup
/// interactions, recursing into [`place_rec`] for the onward landing.
/// `size` is the board size the resolution started with.
pub open spec fn place_offset(v3: GameV, cell: Cell, p: int, pos: int, size: int, fuel: nat) -> (
    GameV,
    bool,
)
    decreases fuel, 0int,
{
    let off = cell.offset as int;
    if fuel == 0 {
        (v3, false)
    } else if off == 0 {
        (v3, true)
    } else if off < 0 {
        if holds(v3.players[p], PowerupType::Antivenom) {
            (
                GameV {
                    players: v3.players.update(p, consumed(v3.players[p], PowerupType::Antivenom)),
                    ..v3
                },
                true,
            )
        } else {
            let np = clamp_pos(pos + off, size);
            place_rec(GameV { board: clear_at(v3.board, pos), ..v3 }, p, np, (fuel - 1) as nat)
        }
    } else {
        let np = clamp_pos(pos + off, size);
        if holds(v3.players[p], PowerupType::Escalator) {
            let v4 = GameV {
                players: v3.players.update(p, consumed(v3.players[p], PowerupType::Escalator)),
                ..v3
            };
            let np2 = clamp_pos(np + off, size);
            place_rec(GameV { board: clear_at(v4.board, pos), ..v4 }, p, np2, (fuel - 1) as nat)
        } else {
            place_rec(GameV { board: clear_at(v3.board, pos), ..v3 }, p, np, (fuel - 1) as nat)
        }
    }
}

/// `v` with player handle `p` lifted off the board: the cell `p` stands on,
/// if any, loses its occupant mark.  This precedes every fresh placement,
/// so that a player never occupies two cells.
pub open spec fn detach(v: GameV, p: int) -> GameV {
    let pos = v.players[p].position as int;
    if 1 <= pos <= v.board.len() && v.board[pos - 1].occupant == Some(p as usize) {
        GameV { board: clear_at(v.board, pos), ..v }
    } else {
        v
    }
}

/// One full placement: lift `p` off the board, then resolve the landing on
/// `pos` with a fresh tank of fuel.  An unknown handle changes nothing.
pub open spec fn move_to_spec(v: GameV, p: int, pos: int) -> (GameV, bool) {
    if !(0 <= p < v.players.len()) {
        (v, false)
    } else {
        place_rec(detach(v, p), p, pos, fuel_of(v))
    }
}

/// Resizing the board: `width * height` fresh cells, every prior cell and
/// every player discarded.  The dice sequence and the roll count survive.
/// A zero dimension or an unaddressable cell count is refused.
pub open spec fn board_spec(v: GameV, width: usize, height: usize) -> (GameV, Result<
    (),
    GameError,
>) {
    if width == 0 || height == 0 {
        (v, Err(GameError::ZeroDimension))
    } else if width * height > MAX_CELLS {
        (v, Err(GameError::BoardTooLarge))
    } else {
        (
            GameV {
                board: Seq::new((width * height) as nat, |i| fresh_cell()),
                width: width as nat,
                players: Seq::empty(),
                ..v
            },
            Ok(()),
        )
    }
}

/// The fresh player arena for `count` players: identities 'A', 'B', ...,
/// all at position 1 with empty inventories.
pub open spec fn seed_players(count: int) -> Seq<Player> {
    Seq::new(
        count as nat,
        |i: int|
            Player {
                name: (65 + i) as u8,
                position: 1,
                antivenom: false,
                doubleroll: false,
                escalator: false,
            },
    )
}

/// Players `0 .. k` placed on cell 1 through the resolver, in identity
/// order.  A later player bumps the earlier ones forward by one cell each.
pub open spec fn place_all(v: GameV, k: int) -> GameV
    decreases k,
{
    if k <= 0 {
        v
    } else {
        move_to_spec(place_all(v, k - 1), k - 1, 1).0
    }
}

/// `b` with every occupant mark removed; the cells' special types,
/// offsets and powerups stand.
pub open spec fn clear_all(b: Seq<Cell>) -> Seq<Cell> {
    Seq::new(b.len(), |j: int| Cell { occupant: None, ..b[j] })
}

/// Creating `count` players.  The old arena ceases to exist, so every
/// occupant mark is wiped before the new players walk on.  More than 26
/// identities do not exist; a board with no cells has no cell 1 to stand
/// on.
pub open spec fn players_spec(v: GameV, count: usize) -> (GameV, Result<(), GameError>) {
    if count > 26 {
        (v, Err(GameError::TooManyPlayers))
    } else if count > 0 && v.board.len() == 0 {
        (v, Err(GameError::OutOfRange))
    } else {
        (
            place_all(
                GameV { board: clear_all(v.board), players: seed_players(count as int), ..v },
                count as int,
            ),
            Ok(()),
        )
    }
}

/// Declaring a snake or ladder: cell `from` gets offset `to - from` and
/// the cell type that its sign dictates.  Any index off the board is
/// refused with no cell touched.
pub open spec fn abnormal_spec(v: GameV, from: usize, to: usize) -> (GameV, Result<
    (),
    GameError,
>) {
    if !(1 <= from <= v.board.len()) || !(1 <= to <= v.board.len()) {
        (v, Err(GameError::OutOfRange))
    } else if v.board.len() > MAX_CELLS {
        // only a hand-built board can be this large; an offset on it
        // might not fit a cell, so nothing is touched
        (v, Err(GameError::BoardTooLarge))
    } else {
        let off = to - from;
        let cell = v.board[from - 1];
        (
            GameV {
                board: v.board.update(
                    from - 1,
                    Cell { cell_type: type_of_offset(off), offset: off as i32, ..cell },
                ),
                ..v
            },
            Ok(()),
        )
    }
}

/// The board with the powerups of the first `k` listed cells set to
/// `kind`, in list order; a later mention of a cell overwrites an earlier
/// one.
pub open spec fn set_powerups(b: Seq<Cell>, kind: PowerupType, cells: Seq<usize>, k: int) -> Seq<
    Cell,
>
    decreases k,
{
    if k <= 0 {
        b
    } else {
        let b1 = set_powerups(b, kind, cells, k - 1);
        let pos = cells[k - 1] as int;
        b1.update(pos - 1, Cell { powerup: kind, ..b1[pos - 1] })
    }
}

/// Assigning a powerup to a list of cells.  One index off the board
/// refuses the whole command: no cell, listed or not, is touched.
pub open spec fn powerup_spec(v: GameV, kind: PowerupType, cells: Seq<usize>) -> (GameV, Result<
    (),
    GameError,
>) {
    if exists|i: int| 0 <= i < cells.len() && !(1 <= (#[trigger] cells[i]) <= v.board.len()) {
        (v, Err(GameError::OutOfRange))
    } else {
        (GameV { board: set_powerups(v.board, kind, cells, cells.len() as int), ..v }, Ok(()))
    }
}

/// Replacing the dice sequence.  The roll count is kept; rolls continue
/// from it, modulo the new length.
pub open spec fn dice_spec(v: GameV, values: Seq<usize>) -> GameV {
    GameV { dice: values, ..v }
}

/// One roll: the die at `turns` in the cyclic sequence, with the count
/// advanced by one.  An empty sequence has nothing to roll.
pub open spec fn roll_spec(v: GameV) -> (GameV, Result<usize, GameError>) {
    if v.dice.len() == 0 {
        (v, Err(GameError::EmptyDice))
    } else {
        let n = v.dice.len();
        let idx = v.turns % n;
        (GameV { turns: (idx + 1) % n, ..v }, Ok(v.dice[idx as int]))
    }
}

/// One turn of player handle `p`: consume a die, then place the player
/// `die` cells forward, bounded to the board.  Only an empty dice sequence
/// is an error; a degraded placement is skipped silently, the die still
/// spent.
pub open spec fn simulator_spec(v: GameV, p: int) -> (GameV, Result<(), GameError>) {
    let rolled = roll_spec(v);
    match rolled.1 {
        Err(e) => (v, Err(e)),
        Ok(die) => {
            let v1 = rolled.0;
            let target = clamp_pos(v1.players[p].position + die, v1.board.len() as int);
            (move_to_spec(v1, p, target).0, Ok(()))
        },
    }
}

/// Replacing a player by one standing at the same position keeps the
/// board and arena well formed.
pub proof fn lemma_wf_update_player(b: Seq<Cell>, ps: Seq<Player>, p: int, pl: Player)
    requires
        wf_bp(b, ps),
        ps.len() <= usize::MAX,
        0 <= p < ps.len(),
        pl.position == ps[p].position,
    ensures
        wf_bp(b, ps.update(p, pl)),
{
    let ps2 = ps.update(p, pl);
    assert forall|j: int| 0 <= j < b.len() implies match (#[trigger] b[j].occupant) {
        Some(q) => q < ps2.len() && ps2[q as int].position == j + 1,
        None => true,
    } by {
        match b[j].occupant {
            Some(q) => {
                if q as int != p {
                    assert(ps2[q as int] == ps[q as int]);
                }
            },
            None => {},
        }
    }
    assert forall|i: int| 0 <= i < ps2.len() implies 1 <= (#[trigger] ps2[i].position)
        <= b.len() by {
        if i != p {
            assert(ps2[i] == ps[i]);
        }
    }
}

/// Clearing a cell keeps well-formedness, keeps every player's absence,
/// and leaves the cleared cell's former occupant on no cell at all.
pub proof fn lemma_wf_clear(b: Seq<Cell>, ps: Seq<Player>, pos: int)
    requires
        wf_bp(b, ps),
        1 <= pos <= b.len(),
    ensures
        wf_bp(clear_at(b, pos), ps),
        forall|r: int| #[trigger] absent(b, r) ==> absent(clear_at(b, pos), r),
        forall|q: usize| b[pos - 1].occupant == Some(q) ==> absent(clear_at(b, pos), q as int),
{
    let b2 = clear_at(b, pos);
    assert forall|j: int| 0 <= j < b2.len() implies match (#[trigger] b2[j].occupant) {
        Some(q) => q < ps.len() && ps[q as int].position == j + 1,
        None => true,
    } by {
        if j != pos - 1 {
            assert(b2[j] == b[j]);
        }
    }
    assert forall|r: int| #[trigger] absent(b, r) implies absent(b2, r) by {
        assert forall|j: int| 0 <= j < b2.len() implies (#[trigger] b2[j].occupant) != Some(
            r as usize,
        ) by {
            if j != pos - 1 {
                assert(b2[j] == b[j]);
            }
        }
    }
    assert forall|q: usize| b[pos - 1].occupant == Some(q) implies absent(b2, q as int) by {
        assert forall|j: int| 0 <= j < b2.len() implies (#[trigger] b2[j].occupant) != Some(
            q,
        ) by {
            if j != pos - 1 {
                assert(b2[j] == b[j]);
                if b[j].occupant == Some(q) {
                    // wf_bp would pin q's position to both j + 1 and pos
                    assert(ps[q as int].position == j + 1);
                    assert(ps[q as int].position == pos);
                }
            }
        }
    }
}

/// Marking a detached player as a cell's occupant, with its position set
/// to match, restores well-formedness; every other absent player stays
/// absent.
pub proof fn lemma_wf_settle(b: Seq<Cell>, ps: Seq<Player>, p: int, pos: int)
    requires
        wf_bp(b, ps),
        ps.len() <= usize::MAX,
        b.len() <= usize::MAX,
        0 <= p < ps.len(),
        1 <= pos <= b.len(),
        absent(b, p),
    ensures
        wf_bp(
            occupy_at(b, pos, p as usize),
            ps.update(p, Player { position: pos as usize, ..ps[p] }),
        ),
        forall|r: int|
            0 <= r < ps.len() && r != p && #[trigger] absent(b, r) ==> absent(
                occupy_at(b, pos, p as usize),
                r,
            ),
{
    let b2 = occupy_at(b, pos, p as usize);
    let ps2 = ps.update(p, Player { position: pos as usize, ..ps[p] });
    assert forall|j: int| 0 <= j < b2.len() implies match (#[trigger] b2[j].occupant) {
        Some(q) => q < ps2.len() && ps2[q as int].position == j + 1,
        None => true,
    } by {
        if j == pos - 1 {
            assert(b2[j].occupant == Some(p as usize));
            assert(ps2[p].position == pos as usize);
        } else {
            assert(b2[j] == b[j]);
            assert(b[j].occupant != Some(p as usize));
            match b[j].occupant {
                Some(q) => {
                    assert(q as int != p);
                    assert(ps2[q as int] == ps[q as int]);
                },
                None => {},
            }
        }
    }
    assert forall|i: int| 0 <= i < ps2.len() implies 1 <= (#[trigger] ps2[i].position)
        <= b2.len() by {
        if i != p {
            assert(ps2[i] == ps[i]);
        }
    }
    assert forall|r: int|
        0 <= r < ps.len() && r != p && #[trigger] absent(b, r) implies absent(b2, r) by {
        assert forall|j: int| 0 <= j < b2.len() implies (#[trigger] b2[j].occupant) != Some(
            r as usize,
        ) by {
            if j != pos - 1 {
                assert(b2[j] == b[j]);
            }
        }
    }
}

/// What the resolver preserves.  From a well-formed state in which the
/// placed player occupies no cell, it reaches a well-formed state again;
/// the shape of the board, the static attributes of every cell and the
/// names of the players survive, and a player off the board other than
/// the placed one stays off the board.
#[verifier::rlimit(80)]
pub proof fn lemma_place_rec_props(v: GameV, p: int, pos: int, fuel: nat)
    requires
        wf_bp(v.board, v.players),
        v.players.len() <= usize::MAX,
        v.board.len() <= usize::MAX,
        absent(v.board, p),
    ensures
        ({
            let v1 = place_rec(v, p, pos, fuel).0;
            &&& wf_bp(v1.board, v1.players)
            &&& v1.board.len() == v.board.len()
            &&& v1.players.len() == v.players.len()
            &&& v1.width == v.width
            &&& v1.dice == v.dice
            &&& v1.turns == v.turns
            &&& forall|j: int|
                0 <= j < v.board.len() ==> (#[trigger] v1.board[j]).offset == v.board[j].offset
                    && v1.board[j].cell_type == v.board[j].cell_type && v1.board[j].powerup
                    == v.board[j].powerup
            &&& forall|i: int|
                0 <= i < v.players.len() ==> (#[trigger] v1.players[i]).name == v.players[i].name
            &&& forall|r: int|
                0 <= r < v.players.len() && r != p && #[trigger] absent(v.board, r) ==> absent(
                    v1.board,
                    r,
                )
        }),
    decreases fuel, 1int,
{
    if fuel == 0 || !(0 <= p < v.players.len()) || !(1 <= pos <= v.board.len()) {
    } else {
        let cell = v.board[pos - 1];
        let size = v.board.len() as int;
        let vc = GameV { board: clear_at(v.board, pos), ..v };
        let step1 = match cell.occupant {
            Some(q) => {
                if q == p {
                    assert(false);  // contradicts absent(v.board, p)
                    (v, true)
                } else if q < v.players.len() {
                    lemma_wf_clear(v.board, v.players, pos);
                    lemma_place_rec_props(vc, q as int, pos + 1, (fuel - 1) as nat);
                    place_rec(vc, q as int, pos + 1, (fuel - 1) as nat)
                } else {
                    assert(false);  // contradicts the occupant validity of wf_bp
                    (v, false)
                }
            },
            None => (v, true),
        };
        let v1 = step1.0;
        assert(wf_bp(v1.board, v1.players));
        assert(absent(v1.board, p));
        let v2 = GameV {
            board: occupy_at(v1.board, pos, p as usize),
            players: v1.players.update(p, Player { position: pos as usize, ..v1.players[p] }),
            ..v1
        };
        lemma_wf_settle(v1.board, v1.players, p, pos);
        let v3 = if cell.powerup != PowerupType::Nothing {
            GameV { players: v2.players.update(p, granted(v2.players[p], cell.powerup)), ..v2 }
        } else {
            v2
        };
        lemma_wf_update_player(v2.board, v2.players, p, granted(v2.players[p], cell.powerup));
        assert(wf_bp(v3.board, v3.players));
        assert(v3.board[pos - 1].occupant == Some(p as usize));
        lemma_place_offset_props(v3, cell, p, pos, size, fuel);
        assert forall|r: int|
            0 <= r < v.players.len() && r != p && #[trigger] absent(v.board, r) implies absent(
            place_rec(v, p, pos, fuel).0.board,
            r,
        ) by {
            assert(absent(v1.board, r));
            assert(absent(v2.board, r));
            assert(absent(v3.board, r));
        }
    }
}

/// What the special-cell step preserves, stated against the state with
/// the player already settled on `pos`.
#[verifier::rlimit(80)]
pub proof fn lemma_place_offset_props(v3: GameV, cell: Cell, p: int, pos: int, size: int, fuel: nat)
    requires
        wf_bp(v3.board, v3.players),
        v3.players.len() <= usize::MAX,
        v3.board.len() <= usize::MAX,
        0 <= p < v3.players.len(),
        1 <= pos <= v3.board.len(),
        v3.board[pos - 1].occupant == Some(p as usize),
    ensures
        ({
            let v5 = place_offset(v3, cell, p, pos, size, fuel).0;
            &&& wf_bp(v5.board, v5.players)
            &&& v5.board.len() == v3.board.len()
            &&& v5.players.len() == v3.players.len()
            &&& v5.width == v3.width
            &&& v5.dice == v3.dice
            &&& v5.turns == v3.turns
            &&& forall|j: int|
                0 <= j < v3.board.len() ==> (#[trigger] v5.board[j]).offset == v3.board[j].offset
                    && v5.board[j].cell_type == v3.board[j].cell_type && v5.board[j].powerup
                    == v3.board[j].powerup
            &&& forall|i: int|
                0 <= i < v3.players.len() ==> (#[trigger] v5.players[i]).name == v3.players[i].name
            &&& forall|r: int|
                0 <= r < v3.players.len() && r != p && #[trigger] absent(v3.board, r) ==> absent(
                    v5.board,
                    r,
                )
        }),
    decreases fuel, 0int,
{
    let off = cell.offset as int;
    if fuel == 0 || off == 0 {
    } else if off < 0 {
        if holds(v3.players[p], PowerupType::Antivenom) {
            lemma_wf_update_player(
                v3.board,
                v3.players,
                p,
                consumed(v3.players[p], PowerupType::Antivenom),
            );
        } else {
            let np = clamp_pos(pos + off, size);
            let v4 = GameV { board: clear_at(v3.board, pos), ..v3 };
            lemma_wf_clear(v3.board, v3.players, pos);
            assert(absent(v4.board, p));
            lemma_place_rec_props(v4, p, np, (fuel - 1) as nat);
        }
    } else {
        let np = clamp_pos(pos + off, size);
        if holds(v3.players[p], PowerupType::Escalator) {
            let v4 = GameV {
                players: v3.players.update(p, consumed(v3.players[p], PowerupType::Escalator)),
                ..v3
            };
            lemma_wf_update_player(
                v3.board,
                v3.players,
                p,
                consumed(v3.players[p], PowerupType::Escalator),
            );
            let np2 = clamp_pos(np + off, size);
            let v5 = GameV { board: clear_at(v4.board, pos), ..v4 };
            lemma_wf_clear(v4.board, v4.players, pos);
            assert(absent(v5.board, p));
            lemma_place_rec_props(v5, p, np2, (fuel - 1) as nat);
        } else {
            let v4 = GameV { board: clear_at(v3.board, pos), ..v3 };
            lemma_wf_clear(v3.board, v3.players, pos);
            assert(absent(v4.board, p));
            lemma_place_rec_props(v4, p, np, (fuel - 1) as nat);
        }
    }
}

/// Lifting a player off the board keeps the state well formed and leaves
/// the player on no cell at all.
pub proof fn lemma_detach_props(v: GameV, p: int)
    requires
        wf_bp(v.board, v.players),
        v.players.len() <= usize::MAX,
        0 <= p < v.players.len(),
    ensures
        ({
            let vd = detach(v, p);
            &&& wf_bp(vd.board, vd.players)
            &&& absent(vd.board, p)
            &&& vd.board.len() == v.board.len()
            &&& vd.players == v.players
            &&& vd.width == v.width
            &&& vd.dice == v.dice
            &&& vd.turns == v.turns
            &&& forall|j: int|
                0 <= j < v.board.len() ==> (#[trigger] vd.board[j]).offset == v.board[j].offset
                    && vd.board[j].cell_type == v.board[j].cell_type && vd.board[j].powerup
                    == v.board[j].powerup
        }),
{
    let pos = v.players[p].position as int;
    if 1 <= pos <= v.board.len() && v.board[pos - 1].occupant == Some(p as usize) {
        lemma_wf_clear(v.board, v.players, pos);
    } else {
        assert forall|j: int| 0 <= j < v.board.len() implies (#[trigger] v.board[j].occupant)
            != Some(p as usize) by {
            if v.board[j].occupant == Some(p as usize) {
                // wf_bp pins p to cell j + 1, which must be p's position
                assert(v.players[p].position == j + 1);
            }
        }
    }
}

/// A full placement preserves well-formedness and the shape of the game:
/// board size, widths, dice, roll count, every cell's static attributes
/// and every player's name.
pub proof fn lemma_move_to_props(v: GameV, p: int, pos: int)
    requires
        v.wf(),
    ensures
        ({
            let v1 = move_to_spec(v, p, pos).0;
            &&& v1.wf()
            &&& v1.board.len() == v.board.len()
            &&& v1.players.len() == v.players.len()
            &&& v1.width == v.width
            &&& v1.dice == v.dice
            &&& v1.turns == v.turns
            &&& forall|j: int|
                0 <= j < v.board.len() ==> (#[trigger] v1.board[j]).offset == v.board[j].offset
                    && v1.board[j].cell_type == v.board[j].cell_type && v1.board[j].powerup
                    == v.board[j].powerup
            &&& forall|i: int|
                0 <= i < v.players.len() ==> (#[trigger] v1.players[i]).name == v.players[i].name
        }),
{
    if 0 <= p < v.players.len() {
        lemma_detach_props(v, p);
        lemma_place_rec_props(detach(v, p), p, pos, fuel_of(v));
    }
}

/// The resolver never changes the shape of the game: board size, player
/// count, width, dice and roll count survive, whatever the state.
pub proof fn lemma_place_rec_shape(v: GameV, p: int, pos: int, fuel: nat)
    ensures
        ({
            let v1 = place_rec(v, p, pos, fuel).0;
            &&& v1.board.len() == v.board.len()
            &&& v1.players.len() == v.players.len()
            &&& v1.width == v.width
            &&& v1.dice == v.dice
            &&& v1.turns == v.turns
        }),
    decreases fuel, 1int,
{
    if fuel == 0 || !(0 <= p < v.players.len()) || !(1 <= pos <= v.board.len()) {
    } else {
        let cell = v.board[pos - 1];
        let size = v.board.len() as int;
        let vc = GameV { board: clear_at(v.board, pos), ..v };
        let step1 = match cell.occupant {
            Some(q) => {
                if q == p {
                    (v, true)
                } else if q < v.players.len() {
                    lemma_place_rec_shape(vc, q as int, pos + 1, (fuel - 1) as nat);
                    place_rec(vc, q as int, pos + 1, (fuel - 1) as nat)
                } else {
                    (v, false)
                }
            },
            None => (v, true),
        };
        let v1 = step1.0;
        let v2 = GameV {
            board: occupy_at(v1.board, pos, p as usize),
            players: v1.players.update(p, Player { position: pos as usize, ..v1.players[p] }),
            ..v1
        };
        let v3 = if cell.powerup != PowerupType::Nothing {
            GameV { players: v2.players.update(p, granted(v2.players[p], cell.powerup)), ..v2 }
        } else {
            v2
        };
        assert(v3.players.len() == v.players.len());
        assert(v3.board.len() == v.board.len());
        lemma_place_offset_shape(v3, cell, p, pos, size, fuel);
    }
}

/// The special-cell step never changes the shape of the game either.
pub proof fn lemma_place_offset_shape(
    v3: GameV,
    cell: Cell,
    p: int,
    pos: int,
    size: int,
    fuel: nat,
)
    requires
        0 <= p < v3.players.len(),
        1 <= pos <= v3.board.len(),
    ensures
        ({
            let v5 = place_offset(v3, cell, p, pos, size, fuel).0;
            &&& v5.board.len() == v3.board.len()
            &&& v5.players.len() == v3.players.len()
            &&& v5.width == v3.width
            &&& v5.dice == v3.dice
            &&& v5.turns == v3.turns
        }),
    decreases fuel, 0int,
{
    let off = cell.offset as int;
    if fuel == 0 || off == 0 {
    } else if off < 0 {
        if !holds(v3.players[p], PowerupType::Antivenom) {
            let np = clamp_pos(pos + off, size);
            lemma_place_rec_shape(
                GameV { board: clear_at(v3.board, pos), ..v3 },
                p,
                np,
                (fuel - 1) as nat,
            );
        }
    } else {
        let np = clamp_pos(pos + off, size);
        if holds(v3.players[p], PowerupType::Escalator) {
            let v4 = GameV {
                players: v3.players.update(p, consumed(v3.players[p], PowerupType::Escalator)),
                ..v3
            };
            let np2 = clamp_pos(np + off, size);
            lemma_place_rec_shape(
                GameV { board: clear_at(v4.board, pos), ..v4 },
                p,
                np2,
                (fuel - 1) as nat,
            );
        } else {
            lemma_place_rec_shape(
                GameV { board: clear_at(v3.board, pos), ..v3 },
                p,
                np,
                (fuel - 1) as nat,
            );
        }
    }
}

/// The shape of the game survives a full placement, whatever the state.
pub proof fn lemma_move_to_shape(v: GameV, p: int, pos: int)
    ensures
        ({
            let v1 = move_to_spec(v, p, pos).0;
            &&& v1.board.len() == v.board.len()
            &&& v1.players.len() == v.players.len()
            &&& v1.width == v.width
            &&& v1.dice == v.dice
            &&& v1.turns == v.turns
        }),
{
    if 0 <= p < v.players.len() {
        lemma_place_rec_shape(detach(v, p), p, pos, fuel_of(v));
    }
}

/// Placing any run of players preserves well-formedness and the shape of
/// the game.
pub proof fn lemma_place_all_props(v: GameV, k: int)
    requires
        v.wf(),
    ensures
        ({
            let v1 = place_all(v, k);
            &&& v1.wf()
            &&& v1.board.len() == v.board.len()
            &&& v1.players.len() == v.players.len()
            &&& v1.width == v.width
            &&& v1.dice == v.dice
            &&& v1.turns == v.turns
            &&& forall|i: int|
                0 <= i < v.players.len() ==> (#[trigger] place_all(v, k).players[i]).name
                    == v.players[i].name
        }),
    decreases k,
{
    if k <= 0 {
    } else {
        lemma_place_all_props(v, k - 1);
        lemma_move_to_props(place_all(v, k - 1), k - 1, 1);
    }
}

} // verus!

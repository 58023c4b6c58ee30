//! The laws of the game, stated and proved over the model.
//!
//! Each proof function here is a universally quantified statement about
//! the specification functions that the executable methods are proved
//! equal to, so it holds of every run of the library.

use crate::cell::{Cell, PowerupType};
use crate::error::GameError;
use crate::model::{
    abnormal_spec, absent, board_spec, clamp_pos, clear_at, detach, fresh_cell, fuel_of,
    lemma_place_rec_props, move_to_spec, occupy_at, place_offset, place_rec, powerup_spec,
    roll_spec, wf_bp, GameV, MAX_CELLS,
};
use crate::model::{clear_all, place_all, players_spec, seed_players};
use crate::player::Player;
use crate::render::render_spec;
use vstd::arithmetic::div_mod::{lemma_add_mod_noop, lemma_mod_bound, lemma_small_mod};
use vstd::prelude::*;

verus! {

/// A fresh board is exactly `width * height` cells, every one normal,
/// unoccupied and without a powerup — and the sizing succeeds exactly
/// when both dimensions are positive and the cell count addressable.
pub proof fn lemma_board_fresh(v: GameV, width: usize, height: usize)
    ensures
        board_spec(v, width, height).1 is Ok <==> (width > 0 && height > 0 && width * height
            <= MAX_CELLS),
        board_spec(v, width, height).1 is Ok ==> {
            let b = board_spec(v, width, height).0.board;
            &&& b.len() == width * height
            &&& forall|j: int| 0 <= j < b.len() ==> (#[trigger] b[j]) == fresh_cell()
        },
        board_spec(v, width, height).1 is Err ==> board_spec(v, width, height).0 == v,
{
}

/// The cascading occupancy invariant: in a well-formed game no two cells
/// carry the same occupant, and the occupant of a cell stands exactly
/// there.  Every operation of the game preserves well-formedness, so
/// this holds after any run of commands and moves.
pub proof fn lemma_occupancy_unique(v: GameV, j1: int, j2: int)
    requires
        v.wf(),
        0 <= j1 < v.board.len(),
        0 <= j2 < v.board.len(),
        j1 != j2,
        v.board[j1].occupant is Some,
    ensures
        v.board[j1].occupant != v.board[j2].occupant,
        v.players[v.board[j1].occupant.unwrap() as int].position == j1 + 1,
{
    assert(wf_bp(v.board, v.players));
    let q = v.board[j1].occupant.unwrap();
    assert(v.players[q as int].position == j1 + 1);
    if v.board[j2].occupant == v.board[j1].occupant {
        assert(v.players[q as int].position == j2 + 1);
    }
}

/// A player landing on a snake while holding antivenom stays put and
/// loses the antivenom; without it, the player descends by the snake's
/// offset.  `pos` is the landing cell, required free of residents and
/// powerups so that nothing but the snake acts; the descent target must
/// lie on the board and, for the descending case, be a plain free cell.
pub proof fn lemma_snake_antivenom(v: GameV, p: int, pos: int)
    requires
        v.wf(),
        0 <= p < v.players.len(),
        1 <= pos <= v.board.len(),
        v.board[pos - 1].occupant is None || v.board[pos - 1].occupant == Some(p as usize),
        v.board[pos - 1].powerup == PowerupType::Nothing,
        v.board[pos - 1].offset < 0,
        1 <= pos + v.board[pos - 1].offset,
    ensures
        v.players[p].antivenom ==> {
            let v1 = move_to_spec(v, p, pos).0;
            &&& v1.players[p].position == pos
            &&& !v1.players[p].antivenom
            &&& v1.board[pos - 1].occupant == Some(p as usize)
            &&& move_to_spec(v, p, pos).1
        },
        (!v.players[p].antivenom && {
            let t = pos + v.board[pos - 1].offset;
            &&& v.board[t - 1].occupant is None
            &&& v.board[t - 1].offset == 0
        }) ==> {
            let v1 = move_to_spec(v, p, pos).0;
            &&& v1.players[p].position == pos + v.board[pos - 1].offset
            &&& move_to_spec(v, p, pos).1
        },
{
    reveal_with_fuel(place_rec, 3);
    reveal_with_fuel(place_offset, 3);
    crate::model::lemma_detach_props(v, p);
    let vd = detach(v, p);
    let fuel = fuel_of(v);
    let cell = v.board[pos - 1];
    let off = cell.offset as int;
    let size = v.board.len() as int;
    let t = pos + off;
    assert(vd.board[pos - 1].occupant is None);
    assert(vd.board[pos - 1] == (Cell { occupant: vd.board[pos - 1].occupant, ..cell }));
    let v2 = GameV {
        board: occupy_at(vd.board, pos, p as usize),
        players: vd.players.update(p, Player { position: pos as usize, ..vd.players[p] }),
        ..vd
    };
    assert(place_rec(vd, p, pos, fuel) == place_offset(v2, vd.board[pos - 1], p, pos, size, fuel)
        || place_rec(vd, p, pos, fuel).0 == place_offset(
        v2,
        vd.board[pos - 1],
        p,
        pos,
        size,
        fuel,
    ).0);
    if v.players[p].antivenom {
        assert(move_to_spec(v, p, pos).0 == place_offset(
            v2,
            vd.board[pos - 1],
            p,
            pos,
            size,
            fuel,
        ).0);
    } else if v.board[t - 1].occupant is None && v.board[t - 1].offset == 0 {
        let v4 = GameV { board: clear_at(v2.board, pos), ..v2 };
        assert(v4.board[t - 1] == v.board[t - 1]);
        assert(clamp_pos(pos + off, size) == t);
        assert(fuel >= 2);
        let inner = place_rec(v4, p, t, (fuel - 1) as nat);
        assert(v4.board[t - 1].occupant is None);
        assert(inner.0.players[p].position == t);
        assert(move_to_spec(v, p, pos).0 == inner.0);
    }
}

/// A player landing on a ladder while holding an escalator climbs twice
/// the ladder's offset (bounded to the board) and loses the escalator.
/// `pos` is the landing cell, required free of residents and powerups;
/// the doubled target must be a plain free cell without a powerup.
pub proof fn lemma_ladder_escalator(v: GameV, p: int, pos: int)
    requires
        v.wf(),
        0 <= p < v.players.len(),
        1 <= pos <= v.board.len(),
        v.board[pos - 1].occupant is None || v.board[pos - 1].occupant == Some(p as usize),
        v.board[pos - 1].powerup == PowerupType::Nothing,
        v.board[pos - 1].offset > 0,
        v.players[p].escalator,
        ({
            let t2 = clamp_pos(
                clamp_pos(pos + v.board[pos - 1].offset, v.board.len() as int) + v.board[pos
                    - 1].offset,
                v.board.len() as int,
            );
            &&& v.board[t2 - 1].occupant is None
            &&& v.board[t2 - 1].offset == 0
            &&& v.board[t2 - 1].powerup != PowerupType::Escalator
        }),
    ensures
        ({
            let t2 = clamp_pos(
                clamp_pos(pos + v.board[pos - 1].offset, v.board.len() as int) + v.board[pos
                    - 1].offset,
                v.board.len() as int,
            );
            let v1 = move_to_spec(v, p, pos).0;
            &&& v1.players[p].position == t2
            &&& !v1.players[p].escalator
            &&& move_to_spec(v, p, pos).1
        }),
{
    reveal_with_fuel(place_rec, 3);
    reveal_with_fuel(place_offset, 3);
    crate::model::lemma_detach_props(v, p);
    let vd = detach(v, p);
    let fuel = fuel_of(v);
    let cell = v.board[pos - 1];
    let off = cell.offset as int;
    let size = v.board.len() as int;
    let np = clamp_pos(pos + off, size);
    let t2 = clamp_pos(np + off, size);
    assert(vd.board[pos - 1].occupant is None);
    let v2 = GameV {
        board: occupy_at(vd.board, pos, p as usize),
        players: vd.players.update(p, Player { position: pos as usize, ..vd.players[p] }),
        ..vd
    };
    let v4 = GameV {
        players: v2.players.update(p, Player { escalator: false, ..v2.players[p] }),
        ..v2
    };
    let v5 = GameV { board: clear_at(v4.board, pos), ..v4 };
    assert(v5.board[t2 - 1] == v.board[t2 - 1]);
    assert(fuel >= 2);
    let inner = place_rec(v5, p, t2, (fuel - 1) as nat);
    assert(v5.board[t2 - 1].occupant is None);
    assert(inner.0.players[p].position == t2);
    assert(!inner.0.players[p].escalator);
    assert(move_to_spec(v, p, pos).0 == inner.0);
}

/// Rendering is a function of the game state alone: two identical states
/// serialize to byte-identical output, whatever their history.
pub proof fn lemma_render_deterministic(v1: GameV, v2: GameV)
    requires
        v1 == v2,
    ensures
        render_spec(v1) == render_spec(v2),
{
}

/// The state reached after `k` rolls, nothing else happening in between.
pub open spec fn roll_k(v: GameV, k: nat) -> GameV
    decreases k,
{
    if k == 0 {
        v
    } else {
        roll_spec(roll_k(v, (k - 1) as nat)).0
    }
}

/// The dice sequence is consumed cyclically: with a nonempty sequence,
/// the roll after `k` prior rolls always succeeds and hands out the die
/// at `(turns + k)` modulo the sequence length — so for dice `[2, 5]`
/// the successive rolls are 2, 5, 2, 5, ...
pub proof fn lemma_dice_cyclic(v: GameV, k: nat)
    requires
        v.dice.len() > 0,
    ensures
        roll_k(v, k).turns == (v.turns + k) % v.dice.len() || (k == 0 && roll_k(v, k).turns
            == v.turns),
        roll_spec(roll_k(v, k)).1 == Ok::<usize, GameError>(
            v.dice[((v.turns + k) % v.dice.len()) as int],
        ),
        roll_k(v, k).dice == v.dice,
    decreases k,
{
    let n = v.dice.len() as int;
    let t = v.turns as int;
    if k == 0 {
        lemma_mod_bound(t, n);
        lemma_small_mod((t % n) as nat, n as nat);
        assert((t + 0) % n == t % n);
    } else {
        lemma_dice_cyclic(v, (k - 1) as nat);
        let prev = roll_k(v, (k - 1) as nat);
        // prev.turns == (t + k - 1) % n, and one more roll advances it by one
        lemma_mod_bound(t + k - 1, n);
        lemma_mod_bound(prev.turns as int, n);
        lemma_small_mod(((t + k - 1) % n) as nat, n as nat);
        lemma_add_mod_noop(t + k - 1, 1, n);
        if n == 1 {
            lemma_mod_bound(t + k, 1);
            lemma_mod_bound((t + k - 1) % 1 + 1, 1);
        } else {
            lemma_small_mod(1nat, n as nat);
        }
        assert((prev.turns % v.dice.len() + 1) % v.dice.len() == (v.turns + k) % v.dice.len());
        lemma_mod_bound(t + k, n);
        lemma_small_mod(((t + k) % n) as nat, n as nat);
        assert(roll_k(v, k).turns == (t + k) % n);
    }
}

/// An out-of-range snake or ladder index is refused as a configuration
/// error and no cell — the named one or any other — changes.
pub proof fn lemma_special_out_of_range(v: GameV, from: usize, to: usize)
    requires
        !(1 <= from <= v.board.len()) || !(1 <= to <= v.board.len()),
    ensures
        abnormal_spec(v, from, to) == (v, Err::<(), GameError>(GameError::OutOfRange)),
{
}

/// An out-of-range powerup cell index is refused as a configuration
/// error and no cell — listed or not — changes.
pub proof fn lemma_powerup_out_of_range(v: GameV, kind: PowerupType, cells: Seq<usize>, i: int)
    requires
        0 <= i < cells.len(),
        !(1 <= cells[i] <= v.board.len()),
    ensures
        powerup_spec(v, kind, cells) == (v, Err::<(), GameError>(GameError::OutOfRange)),
{
}

/// The cascade on a plain board, in full: placing a detached player on
/// cell `l` when cells `l ..= m` are occupied and cell `m + 1` is free —
/// all cells normal — settles the player on `l` and shifts every
/// resident one cell forward, leaving everything else alone.
#[verifier::rlimit(80)]
pub proof fn lemma_place_shift(v: GameV, p: int, l: int, m: int, fuel: nat)
    requires
        wf_bp(v.board, v.players),
        v.players.len() <= usize::MAX,
        v.board.len() <= usize::MAX,
        forall|j: int| 0 <= j < v.board.len() ==> (#[trigger] v.board[j]).offset == 0,
        0 <= p < v.players.len(),
        absent(v.board, p),
        1 <= l <= m + 1,
        m + 1 <= v.board.len(),
        forall|j: int| l <= j <= m ==> (#[trigger] v.board[j - 1].occupant) is Some,
        v.board[m].occupant is None,
        fuel >= m + 2 - l,
    ensures
        ({
            let r = place_rec(v, p, l, fuel);
            let v1 = r.0;
            &&& r.1
            &&& v1.board[l - 1].occupant == Some(p as usize)
            &&& forall|j: int|
                l + 1 <= j <= m + 1 ==> (#[trigger] v1.board[j - 1].occupant) == v.board[j
                    - 2].occupant
            &&& forall|j: int|
                0 <= j < v.board.len() && !(l - 1 <= j <= m) ==> (
                #[trigger] v1.board[j].occupant) == v.board[j].occupant
            &&& v1.players[p].position == l
            &&& forall|j: int|
                l <= j <= m ==> v1.players[(#[trigger] v.board[j - 1].occupant).unwrap() as int].position
                    == j + 1
            &&& forall|i: int|
                0 <= i < v.players.len() && i != p && #[trigger] absent(v.board, i)
                    ==> v1.players[i].position == v.players[i].position
        }),
    decreases m + 1 - l,
{
    reveal_with_fuel(place_rec, 2);
    reveal_with_fuel(place_offset, 2);
    lemma_place_rec_props(v, p, l, fuel);
    let r = place_rec(v, p, l, fuel);
    let cell = v.board[l - 1];
    let size = v.board.len() as int;
    if l == m + 1 {
        // the landing cell is free: the player settles and, the cell
        // being normal, nothing more happens
        assert(cell.occupant is None);
        let v2 = GameV {
            board: occupy_at(v.board, l, p as usize),
            players: v.players.update(p, Player { position: l as usize, ..v.players[p] }),
            ..v
        };
        assert(cell.offset == 0);
        assert(r.1);
    } else {
        // the resident is bumped one cell forward first, recursively
        let q = cell.occupant.unwrap();
        assert(q < v.players.len() && q as int != p);
        let vc = GameV { board: clear_at(v.board, l), ..v };
        crate::model::lemma_wf_clear(v.board, v.players, l);
        assert(absent(vc.board, q as int));
        assert(vc.board[m].occupant is None);
        assert(forall|j: int|
            l + 1 <= j <= m ==> (#[trigger] vc.board[j - 1].occupant) == v.board[j - 1].occupant);
        lemma_place_shift(vc, q as int, l + 1, m, (fuel - 1) as nat);
        lemma_place_rec_props(vc, q as int, l + 1, (fuel - 1) as nat);
        let inner = place_rec(vc, q as int, l + 1, (fuel - 1) as nat);
        let v1 = inner.0;
        assert(absent(v1.board, p));
        let v2 = GameV {
            board: occupy_at(v1.board, l, p as usize),
            players: v1.players.update(p, Player { position: l as usize, ..v1.players[p] }),
            ..v1
        };
        assert(cell.offset == 0);
        assert(r.1);
        assert(r.0.players == (if cell.powerup != PowerupType::Nothing {
            v2.players.update(p, crate::player::granted(v2.players[p], cell.powerup))
        } else {
            v2.players
        }));
        assert forall|j: int| l + 1 <= j <= m + 1 implies (#[trigger] r.0.board[j - 1].occupant)
            == v.board[j - 2].occupant by {
            if j == l + 1 {
                assert(v1.board[l].occupant == Some(q));
            } else {
                assert(v1.board[j - 1].occupant == vc.board[j - 2].occupant);
            }
        }
        assert forall|j: int| l <= j <= m implies r.0.players[(
        #[trigger] v.board[j - 1].occupant).unwrap() as int].position == j + 1 by {
            if j == l {
                assert(v1.players[q as int].position == l + 1);
                assert(r.0.players[q as int].position == l + 1);
            } else {
                let w = vc.board[j - 1].occupant.unwrap() as int;
                assert(v1.players[w].position == j + 1);
                assert(w != p);
                assert(r.0.players[w].position == j + 1);
            }
        }
        assert forall|i: int|
            0 <= i < v.players.len() && i != p && #[trigger] absent(v.board, i)
                implies r.0.players[i].position == v.players[i].position by {
            assert(absent(vc.board, i));
            assert(i != q as int);
            assert(v1.players[i].position == v.players[i].position);
        }
    }
}

/// The board after some players have walked on: the first `k` cells hold
/// the players in reverse identity order, everything else is free, and
/// the players not yet placed stand where they were seeded.
proof fn lemma_place_all_contig(vs: GameV, count: int, k: int)
    requires
        wf_bp(vs.board, vs.players),
        vs.players.len() <= usize::MAX,
        vs.board.len() <= usize::MAX,
        forall|j: int| 0 <= j < vs.board.len() ==> (#[trigger] vs.board[j]).offset == 0,
        forall|j: int| 0 <= j < vs.board.len() ==> (#[trigger] vs.board[j]).occupant is None,
        vs.players.len() == count,
        0 <= k <= count <= vs.board.len(),
    ensures
        ({
            let vk = place_all(vs, k);
            &&& wf_bp(vk.board, vk.players)
            &&& vk.board.len() == vs.board.len()
            &&& vk.players.len() == vs.players.len()
            &&& forall|j: int| 0 <= j < vk.board.len() ==> (#[trigger] vk.board[j]).offset == 0
            &&& forall|j: int|
                1 <= j <= k ==> (#[trigger] vk.board[j - 1].occupant) == Some((k - j) as usize)
            &&& forall|j: int|
                k <= j < vk.board.len() ==> (#[trigger] vk.board[j]).occupant is None
            &&& forall|i: int| 0 <= i < k ==> (#[trigger] vk.players[i]).position == k - i
            &&& forall|i: int|
                k <= i < count ==> (#[trigger] vk.players[i]).position == vs.players[i].position
        }),
    decreases k,
{
    if k > 0 {
        lemma_place_all_contig(vs, count, k - 1);
        let vk = place_all(vs, k - 1);
        let p = k - 1;
        assert(absent(vk.board, p)) by {
            assert forall|j: int| 0 <= j < vk.board.len() implies (#[trigger] vk.board[j]).occupant
                != Some(p as usize) by {
                if 1 <= j + 1 <= k - 1 {
                    assert(vk.board[(j + 1) - 1].occupant == Some((k - 1 - (j + 1)) as usize));
                }
            }
        }
        crate::model::lemma_detach_props(vk, p);
        assert(detach(vk, p) == vk) by {
            let pos = vk.players[p].position as int;
            assert(vk.board[pos - 1].occupant != Some(p as usize));
        }
        lemma_place_shift(vk, p, 1, k - 1, fuel_of(vk));
        lemma_place_rec_props(vk, p, 1, fuel_of(vk));
        let vn = place_all(vs, k);
        assert(vn == place_rec(vk, p, 1, fuel_of(vk)).0);
        assert forall|j: int| 1 <= j <= k implies (#[trigger] vn.board[j - 1].occupant) == Some(
            (k - j) as usize,
        ) by {
            if j == 1 {
            } else {
                assert(vn.board[j - 1].occupant == vk.board[j - 2].occupant);
                assert(vk.board[(j - 1) - 1].occupant == Some(((k - 1) - (j - 1)) as usize));
            }
        }
        assert forall|i: int| 0 <= i < k implies (#[trigger] vn.players[i]).position == k - i by {
            if i == p {
            } else {
                let j = k - 1 - i;
                assert(vk.board[j - 1].occupant == Some(i as usize));
                assert(vn.players[(vk.board[j - 1].occupant).unwrap() as int].position == j + 1);
            }
        }
        assert forall|i: int|
            k <= i < count implies (#[trigger] vn.players[i]).position
                == vs.players[i].position by {
            assert(absent(vk.board, i)) by {
                assert forall|j: int|
                    0 <= j < vk.board.len() implies (#[trigger] vk.board[j]).occupant != Some(
                    i as usize,
                ) by {
                    if 1 <= j + 1 <= k - 1 {
                        assert(vk.board[(j + 1) - 1].occupant == Some(
                            (k - 1 - (j + 1)) as usize,
                        ));
                    }
                }
            }
            assert(vn.players[i].position == vk.players[i].position);
        }
    }
}

/// Placing `count` players on a plain board (no snakes, no ladders)
/// always succeeds and leaves them on a contiguous run of cells starting
/// at cell 1, one player per cell, in reverse identity order: the last
/// player created sits on cell 1, having bumped each earlier one
/// forward.
pub proof fn lemma_players_contiguous(v: GameV, count: usize)
    requires
        v.wf(),
        0 < count <= 26,
        count <= v.board.len(),
        forall|j: int| 0 <= j < v.board.len() ==> (#[trigger] v.board[j]).offset == 0,
    ensures
        players_spec(v, count).1 is Ok,
        ({
            let v1 = players_spec(v, count).0;
            &&& v1.players.len() == count
            &&& forall|j: int|
                1 <= j <= count ==> (#[trigger] v1.board[j - 1].occupant) == Some(
                    (count - j) as usize,
                )
            &&& forall|j: int|
                count <= j < v1.board.len() ==> (#[trigger] v1.board[j]).occupant is None
            &&& forall|i: int| 0 <= i < count ==> (#[trigger] v1.players[i]).position == count - i
            &&& forall|i: int| 0 <= i < count ==> (#[trigger] v1.players[i]).name == 65 + i
        }),
{
    let vs = GameV {
        board: clear_all(v.board),
        players: seed_players(count as int),
        ..v
    };
    assert(wf_bp(vs.board, vs.players)) by {
        assert(forall|j: int|
            0 <= j < vs.board.len() ==> (#[trigger] vs.board[j]).occupant is None);
    }
    lemma_place_all_contig(vs, count as int, count as int);
    assert(vs.wf());
    crate::model::lemma_place_all_props(vs, count as int);
    assert(players_spec(v, count).0 == place_all(vs, count as int));
}

} // verus!

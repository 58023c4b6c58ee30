//! The serpentine renderer.
//!
//! The board serializes as a grid: rows are numbered from the bottom,
//! odd-numbered rows read left to right and even-numbered rows right to
//! left.  Every row shows a header line of 3-wide right-aligned cell
//! indices and a body line of `|` + occupant letter + powerup marker +
//! cell-type marker, and a `+---+...` rule brackets every row.  The whole
//! output is a function of the game state alone, stated byte for byte by
//! [`render_spec`].

use crate::cell::{Cell, CellType, PowerupType};
use crate::game::Game;
use crate::model::GameV;
use vstd::arithmetic::div_mod::{lemma_fundamental_div_mod, lemma_mod_bound};
use vstd::arithmetic::mul::lemma_mul_is_commutative;
use vstd::prelude::*;

verus! {

/// The decimal digits of `n`, most significant first, as ASCII bytes.
pub open spec fn dec_digits(n: nat) -> Seq<u8>
    decreases n,
{
    if n < 10 {
        seq![(48 + n) as u8]
    } else {
        dec_digits(n / 10).push((48 + n % 10) as u8)
    }
}

/// `s` right-aligned in a field of three spaces (unchanged when longer).
pub open spec fn pad3(s: Seq<u8>) -> Seq<u8> {
    if s.len() >= 3 {
        s
    } else if s.len() == 2 {
        seq![32u8] + s
    } else {
        seq![32u8, 32u8] + s
    }
}

/// The horizontal rule up to `w` cells, without its newline: `+---+---+`.
pub open spec fn grid_bar(w: nat) -> Seq<u8>
    decreases w,
{
    if w == 0 {
        seq![43u8]
    } else {
        grid_bar((w - 1) as nat) + seq![45u8, 45u8, 45u8, 43u8]
    }
}

/// The horizontal rule for `w` cells, newline included.
pub open spec fn grid_line(w: nat) -> Seq<u8> {
    grid_bar(w) + seq![10u8]
}

/// One header field: `|` and the cell index, 3-wide right-aligned.
pub open spec fn cell_hdr(i: nat) -> Seq<u8> {
    seq![124u8] + pad3(dec_digits(i))
}

/// The letter shown for the occupant of a cell: the player's identity,
/// blank for an empty cell (or for anything that is not an uppercase
/// letter, which no game-built player ever has).
pub open spec fn occupant_byte(v: GameV, i: int) -> u8 {
    match v.board[i - 1].occupant {
        Some(q) => {
            if q < v.players.len() && 65 <= v.players[q as int].name <= 90 {
                v.players[q as int].name
            } else {
                32
            }
        },
        None => 32,
    }
}

/// The marker of a powerup: `a`, `d`, `e` or blank.
pub open spec fn powerup_byte(p: PowerupType) -> u8 {
    match p {
        PowerupType::Antivenom => 97,
        PowerupType::Doubleroll => 100,
        PowerupType::Escalator => 101,
        PowerupType::Nothing => 32,
    }
}

/// The marker of a cell type: `L`, `S` or blank.
pub open spec fn cell_type_byte(t: CellType) -> u8 {
    match t {
        CellType::NormalCell => 32,
        CellType::LadderCell => 76,
        CellType::SnakeCell => 83,
    }
}

/// One body field: `|`, occupant letter, powerup marker, type marker.
pub open spec fn cell_repr(v: GameV, i: int) -> Seq<u8> {
    seq![
        124u8,
        occupant_byte(v, i),
        powerup_byte(v.board[i - 1].powerup),
        cell_type_byte(v.board[i - 1].cell_type),
    ]
}

/// The first `n` header fields of the row starting at cell `base`, read
/// left to right.
pub open spec fn hdr_fwd(base: int, n: nat) -> Seq<u8>
    decreases n,
{
    if n == 0 {
        Seq::empty()
    } else {
        hdr_fwd(base, (n - 1) as nat) + cell_hdr((base + n - 1) as nat)
    }
}

/// The first `n` header fields of the row ending at cell `peak`, read
/// right to left.
pub open spec fn hdr_rev(peak: int, n: nat) -> Seq<u8>
    decreases n,
{
    if n == 0 {
        Seq::empty()
    } else {
        hdr_rev(peak, (n - 1) as nat) + cell_hdr((peak - n + 1) as nat)
    }
}

/// The first `n` body fields of the row starting at cell `base`, left to
/// right.
pub open spec fn body_fwd(v: GameV, base: int, n: nat) -> Seq<u8>
    decreases n,
{
    if n == 0 {
        Seq::empty()
    } else {
        body_fwd(v, base, (n - 1) as nat) + cell_repr(v, base + n - 1)
    }
}

/// The first `n` body fields of the row ending at cell `peak`, right to
/// left.
pub open spec fn body_rev(v: GameV, peak: int, n: nat) -> Seq<u8>
    decreases n,
{
    if n == 0 {
        Seq::empty()
    } else {
        body_rev(v, peak, (n - 1) as nat) + cell_repr(v, peak - n + 1)
    }
}

/// A full left-to-right row: header line, body line, rule.
pub open spec fn row_reg(v: GameV, width: int, row_num: int) -> Seq<u8> {
    let base = width * (row_num - 1) + 1;
    hdr_fwd(base, width as nat) + seq![124u8, 10u8] + body_fwd(v, base, width as nat) + seq![
        124u8,
        10u8,
    ] + grid_line(width as nat)
}

/// A full right-to-left row: header line, body line, rule.
pub open spec fn row_rev(v: GameV, width: int, row_num: int) -> Seq<u8> {
    let peak = width * row_num;
    hdr_rev(peak, width as nat) + seq![124u8, 10u8] + body_rev(v, peak, width as nat) + seq![
        124u8,
        10u8,
    ] + grid_line(width as nat)
}

/// One row: odd-numbered rows (from the bottom) read left to right, even
/// ones right to left.
pub open spec fn row_one(v: GameV, width: int, row_num: int) -> Seq<u8> {
    if row_num % 2 == 1 {
        row_reg(v, width, row_num)
    } else {
        row_rev(v, width, row_num)
    }
}

/// The first `k` rows rendered, from row `h` downwards.
pub open spec fn rows_upto(v: GameV, h: int, k: nat) -> Seq<u8>
    decreases k,
{
    if k == 0 {
        Seq::empty()
    } else {
        rows_upto(v, h, (k - 1) as nat) + row_one(v, v.width as int, h - k + 1)
    }
}

/// The whole rendering: the top rule, then every row from the top of the
/// grid (the highest row number) down to row 1.  A game without a board
/// renders as the bare rule.
pub open spec fn render_spec(v: GameV) -> Seq<u8> {
    let h = if v.width == 0 {
        0int
    } else {
        v.board.len() as int / v.width as int
    };
    grid_line(v.width) + rows_upto(v, h, h as nat)
}

/// The characters of a sequence of ASCII bytes.
pub open spec fn chars_of(s: Seq<u8>) -> Seq<char> {
    s.map_values(|b: u8| b as char)
}

/// All bytes of `s` are ASCII.
pub open spec fn all_ascii(s: Seq<u8>) -> bool {
    forall|i: int| 0 <= i < s.len() ==> (#[trigger] s[i]) < 128
}

/// Relies on `String::from_utf8`: bytes below 128 decode to exactly one
/// char per byte, with the same code point, and such bytes are never
/// rejected.
#[verifier::external_body]
fn ascii_to_string(bytes: Vec<u8>) -> (r: String)
    requires
        all_ascii(bytes@),
    ensures
        r@ == chars_of(bytes@),
{
    match String::from_utf8(bytes) {
        Ok(s) => s,
        Err(_) => String::new(),
    }
}

/// Append the decimal digits of `n`.
fn push_dec(out: &mut Vec<u8>, n: usize)
    ensures
        final(out)@ == old(out)@ + dec_digits(n as nat),
        all_ascii(old(out)@) ==> all_ascii(final(out)@),
    decreases n,
{
    if n < 10 {
        out.push(48 + (n as u8));
        proof {
            assert(final(out)@ =~= old(out)@ + dec_digits(n as nat));
        }
    } else {
        push_dec(out, n / 10);
        out.push(48 + ((n % 10) as u8));
        proof {
            assert(final(out)@ =~= old(out)@ + dec_digits(n as nat));
        }
    }
}

/// How many digits a number has, in the three bands the padding cares
/// about.
proof fn lemma_dec_len(n: nat)
    ensures
        n < 10 ==> dec_digits(n).len() == 1,
        10 <= n < 100 ==> dec_digits(n).len() == 2,
        n >= 100 ==> dec_digits(n).len() >= 3,
    decreases n,
{
    if n >= 10 {
        lemma_dec_len(n / 10);
    }
}

/// Append one header field: `|` and the index, 3-wide right-aligned.
fn push_cell_hdr(out: &mut Vec<u8>, i: usize)
    ensures
        final(out)@ == old(out)@ + cell_hdr(i as nat),
        all_ascii(old(out)@) ==> all_ascii(final(out)@),
{
    proof {
        lemma_dec_len(i as nat);
    }
    out.push(124);
    if i < 10 {
        out.push(32);
        out.push(32);
    } else if i < 100 {
        out.push(32);
    }
    push_dec(out, i);
    proof {
        assert(final(out)@ =~= old(out)@ + cell_hdr(i as nat));
    }
}

/// Append the horizontal rule for `width` cells, newline included.
fn push_grid(out: &mut Vec<u8>, width: usize)
    ensures
        final(out)@ == old(out)@ + grid_line(width as nat),
        all_ascii(old(out)@) ==> all_ascii(final(out)@),
{
    out.push(43);
    let mut i: usize = 0;
    while i < width
        invariant
            i <= width,
            out@ == old(out)@ + grid_bar(i as nat),
            all_ascii(old(out)@) ==> all_ascii(out@),
        decreases width - i,
    {
        out.push(45);
        out.push(45);
        out.push(45);
        out.push(43);
        i += 1;
        proof {
            assert(out@ =~= old(out)@ + grid_bar(i as nat));
        }
    }
    out.push(10);
    proof {
        assert(final(out)@ =~= old(out)@ + grid_line(width as nat));
    }
}

/// The rule of `get_grid`, as a string: `+---+---+` and a newline.
pub fn get_grid(width: usize) -> (r: String)
    ensures
        r@ == chars_of(grid_line(width as nat)),
{
    let mut out: Vec<u8> = Vec::new();
    push_grid(&mut out, width);
    proof {
        assert(out@ =~= grid_line(width as nat));
    }
    ascii_to_string(out)
}

impl Game {
    /// Append one body field for cell `i`.
    fn push_cell_repr(&self, out: &mut Vec<u8>, i: usize)
        requires
            1 <= i <= self@.board.len(),
        ensures
            final(out)@ == old(out)@ + cell_repr(self@, i as int),
            all_ascii(old(out)@) ==> all_ascii(final(out)@),
    {
        let cell = self.board[i - 1];
        let occ: u8 = match cell.occupant {
            Some(q) => {
                if q < self.players.len() {
                    let n = self.players[q].get_name();
                    if 65 <= n && n <= 90 {
                        n
                    } else {
                        32
                    }
                } else {
                    32
                }
            },
            None => 32,
        };
        out.push(124);
        out.push(occ);
        out.push(
            match cell.powerup {
                PowerupType::Antivenom => 97,
                PowerupType::Doubleroll => 100,
                PowerupType::Escalator => 101,
                PowerupType::Nothing => 32,
            },
        );
        out.push(
            match cell.cell_type {
                CellType::NormalCell => 32,
                CellType::LadderCell => 76,
                CellType::SnakeCell => 83,
            },
        );
        proof {
            assert(final(out)@ =~= old(out)@ + cell_repr(self@, i as int));
        }
    }

    /// Append one full row, left to right when `forward`, else right to
    /// left.
    fn push_row(&self, out: &mut Vec<u8>, width: usize, row_num: usize, forward: bool)
        requires
            1 <= width,
            1 <= row_num,
            width * row_num <= self@.board.len(),
        ensures
            final(out)@ == old(out)@ + (if forward {
                row_reg(self@, width as int, row_num as int)
            } else {
                row_rev(self@, width as int, row_num as int)
            }),
            all_ascii(old(out)@) ==> all_ascii(final(out)@),
    {
        let blen = self.board.len();
        proof {
            assert(width * row_num <= blen);
            assert(width * 1 <= width * row_num) by (nonlinear_arith)
                requires
                    1 <= row_num,
                    0 <= width,
            ;
        }
        let peak = width * row_num;
        let base = peak - width + 1;
        let mut i: usize = 0;
        while i < width
            invariant
                i <= width,
                1 <= width,
                1 <= row_num,
                peak == width * row_num,
                base == peak - width + 1,
                width <= peak,
                peak <= self@.board.len(),
                out@ == old(out)@ + (if forward {
                    hdr_fwd(base as int, i as nat)
                } else {
                    hdr_rev(peak as int, i as nat)
                }),
                all_ascii(old(out)@) ==> all_ascii(out@),
            decreases width - i,
        {
            if forward {
                push_cell_hdr(out, base + i);
            } else {
                push_cell_hdr(out, peak - i);
            }
            i += 1;
            proof {
                if forward {
                    assert(out@ =~= old(out)@ + hdr_fwd(base as int, i as nat));
                } else {
                    assert(out@ =~= old(out)@ + hdr_rev(peak as int, i as nat));
                }
            }
        }
        out.push(124);
        out.push(10);
        let ghost mid = out@;
        let mut i: usize = 0;
        while i < width
            invariant
                i <= width,
                1 <= width,
                1 <= row_num,
                peak == width * row_num,
                base == peak - width + 1,
                width <= peak,
                peak <= self@.board.len(),
                out@ == mid + (if forward {
                    body_fwd(self@, base as int, i as nat)
                } else {
                    body_rev(self@, peak as int, i as nat)
                }),
                all_ascii(mid) ==> all_ascii(out@),
            decreases width - i,
        {
            if forward {
                self.push_cell_repr(out, base + i);
            } else {
                self.push_cell_repr(out, peak - i);
            }
            i += 1;
            proof {
                if forward {
                    assert(out@ =~= mid + body_fwd(self@, base as int, i as nat));
                } else {
                    assert(out@ =~= mid + body_rev(self@, peak as int, i as nat));
                }
            }
        }
        out.push(124);
        out.push(10);
        push_grid(out, width);
        proof {
            assert(width as int * (row_num as int - 1) == width as int * row_num as int
                - width as int) by (nonlinear_arith);
            if forward {
                assert(final(out)@ =~= old(out)@ + row_reg(self@, width as int, row_num as int));
            } else {
                assert(final(out)@ =~= old(out)@ + row_rev(self@, width as int, row_num as int));
            }
        }
    }

    /// One left-to-right row of the grid, as the renderer prints it.
    pub fn row_to_string_reg(&self, width: usize, row_num: usize) -> (r: String)
        requires
            1 <= width,
            1 <= row_num,
            width * row_num <= self@.board.len(),
        ensures
            r@ == chars_of(row_reg(self@, width as int, row_num as int)),
    {
        let mut out: Vec<u8> = Vec::new();
        self.push_row(&mut out, width, row_num, true);
        proof {
            assert(out@ =~= row_reg(self@, width as int, row_num as int));
        }
        ascii_to_string(out)
    }

    /// One right-to-left row of the grid, as the renderer prints it.
    pub fn row_to_string_rev(&self, width: usize, row_num: usize) -> (r: String)
        requires
            1 <= width,
            1 <= row_num,
            width * row_num <= self@.board.len(),
        ensures
            r@ == chars_of(row_rev(self@, width as int, row_num as int)),
    {
        let mut out: Vec<u8> = Vec::new();
        self.push_row(&mut out, width, row_num, false);
        proof {
            assert(out@ =~= row_rev(self@, width as int, row_num as int));
        }
        ascii_to_string(out)
    }

    /// The whole board as text: the top rule, then every row from the
    /// top of the grid down to row 1, serpentine.  The output is a
    /// function of the game state alone — identical states render byte
    /// for byte identically.
    pub fn to_string(&self) -> (r: String)
        ensures
            r@ == chars_of(render_spec(self@)),
    {
        let mut out: Vec<u8> = Vec::new();
        push_grid(&mut out, self.width);
        if self.width == 0 {
            proof {
                assert(out@ =~= render_spec(self@));
            }
            return ascii_to_string(out);
        }
        let h = self.board.len() / self.width;
        proof {
            let x = self@.board.len() as int;
            let d = self@.width as int;
            lemma_fundamental_div_mod(x, d);
            lemma_mod_bound(x, d);
            lemma_mul_is_commutative(d, h as int);
            assert(d * (h as int) <= x);
            assert(h * self.width <= self@.board.len());
        }
        let ghost pre = out@;
        let mut k: usize = 0;
        while k < h
            invariant
                k <= h,
                1 <= self@.width,
                h == self@.board.len() as int / self@.width as int,
                h * self@.width <= self@.board.len(),
                self@.width == self.width,
                out@ == pre + rows_upto(self@, h as int, k as nat),
                all_ascii(pre) ==> all_ascii(out@),
            decreases h - k,
        {
            let row_num = h - k;
            proof {
                assert(self.width * row_num <= h * self.width) by (nonlinear_arith)
                    requires
                        row_num <= h,
                        0 <= self.width,
                ;
            }
            if row_num % 2 != 0 {
                self.push_row(&mut out, self.width, row_num, true);
            } else {
                self.push_row(&mut out, self.width, row_num, false);
            }
            k += 1;
            proof {
                assert(out@ =~= pre + rows_upto(self@, h as int, k as nat));
            }
        }
        proof {
            assert(out@ =~= render_spec(self@));
        }
        ascii_to_string(out)
    }
}

} // verus!

//! The textual command language.
//!
//! One command per line, whitespace-separated tokens: `board`, `players`,
//! `dice`, `snake`, `ladder`, `powerup`.  Unrecognized commands are
//! silently ignored; a recognized command with a missing or non-numeric
//! argument is a configuration error.  Everything is specified — and the
//! implementation proved equal to the specification — at the level of the
//! line's bytes.

use crate::error::GameError;
use crate::game::Game;
use crate::model::{
    abnormal_spec, board_spec, dice_spec, empty_view, players_spec, powerup_spec, GameV,
};
use crate::cell::PowerupType;
use vstd::prelude::*;
use vstd::string::StrSliceExecFns;
use vstd::string::StringSliceAdditionalSpecFns;

verus! {

/// ASCII whitespace, as the tokenizer splits on it.
pub open spec fn is_space(b: u8) -> bool {
    b == 32 || b == 9 || b == 10 || b == 13 || b == 11 || b == 12
}

/// An ASCII decimal digit.
pub open spec fn is_digit(b: u8) -> bool {
    48 <= b <= 57
}

/// The tokenizer's state machine: bytes from `i` on, with `cur` the token
/// being read and `acc` the tokens already read.
pub open spec fn tok_from(s: Seq<u8>, i: int, cur: Seq<u8>, acc: Seq<Seq<u8>>) -> Seq<Seq<u8>>
    decreases s.len() - i,
{
    if i < 0 || i >= s.len() {
        if cur.len() > 0 {
            acc.push(cur)
        } else {
            acc
        }
    } else if is_space(s[i]) {
        if cur.len() > 0 {
            tok_from(s, i + 1, Seq::empty(), acc.push(cur))
        } else {
            tok_from(s, i + 1, Seq::empty(), acc)
        }
    } else {
        tok_from(s, i + 1, cur.push(s[i]), acc)
    }
}

/// The whitespace-separated tokens of a line.
pub open spec fn tokens_of(s: Seq<u8>) -> Seq<Seq<u8>> {
    tok_from(s, 0, Seq::empty(), Seq::empty())
}

/// The value of a digit string, most significant digit first.
pub open spec fn digits_val(t: Seq<u8>) -> int
    decreases t.len(),
{
    if t.len() == 0 {
        0
    } else {
        digits_val(t.drop_last()) * 10 + (t.last() - 48)
    }
}

/// A token as a number: digits only, nonempty, value within the range
/// the command language accepts.  Anything else is malformed.
pub open spec fn num_of(t: Seq<u8>) -> Option<usize> {
    if t.len() == 0 {
        None
    } else if exists|i: int| 0 <= i < t.len() && !is_digit(#[trigger] t[i]) {
        None
    } else if digits_val(t) > u32::MAX {
        None
    } else {
        Some(digits_val(t) as usize)
    }
}

/// The first `k` tokens from index `from` on, each as a number; `None`
/// as soon as one of them is not one.
pub open spec fn nums_upto(ts: Seq<Seq<u8>>, from: int, k: int) -> Option<Seq<usize>>
    decreases k,
{
    if k <= 0 {
        Some(Seq::empty())
    } else {
        match (nums_upto(ts, from, k - 1), num_of(ts[from + k - 1])) {
            (Some(v), Some(n)) => Some(v.push(n)),
            _ => None,
        }
    }
}

/// Every token from index `from` on, each as a number.
pub open spec fn nums_from(ts: Seq<Seq<u8>>, from: int) -> Option<Seq<usize>> {
    nums_upto(ts, from, ts.len() - from)
}

/// The bytes of the command word `board`.
pub open spec fn kw_board() -> Seq<u8> {
    seq![98u8, 111u8, 97u8, 114u8, 100u8]
}

/// The bytes of the command word `players`.
pub open spec fn kw_players() -> Seq<u8> {
    seq![112u8, 108u8, 97u8, 121u8, 101u8, 114u8, 115u8]
}

/// The bytes of the command word `dice`.
pub open spec fn kw_dice() -> Seq<u8> {
    seq![100u8, 105u8, 99u8, 101u8]
}

/// The bytes of the command word `snake`.
pub open spec fn kw_snake() -> Seq<u8> {
    seq![115u8, 110u8, 97u8, 107u8, 101u8]
}

/// The bytes of the command word `ladder`.
pub open spec fn kw_ladder() -> Seq<u8> {
    seq![108u8, 97u8, 100u8, 100u8, 101u8, 114u8]
}

/// The bytes of the command word `powerup`.
pub open spec fn kw_powerup() -> Seq<u8> {
    seq![112u8, 111u8, 119u8, 101u8, 114u8, 117u8, 112u8]
}

/// The bytes of the command word `antivenom`.
pub open spec fn kw_antivenom() -> Seq<u8> {
    seq![97u8, 110u8, 116u8, 105u8, 118u8, 101u8, 110u8, 111u8, 109u8]
}

/// The bytes of the command word `double`.
pub open spec fn kw_double() -> Seq<u8> {
    seq![100u8, 111u8, 117u8, 98u8, 108u8, 101u8]
}

/// The bytes of the command word `escalator`.
pub open spec fn kw_escalator() -> Seq<u8> {
    seq![101u8, 115u8, 99u8, 97u8, 108u8, 97u8, 116u8, 111u8, 114u8]
}

/// One command line, applied to the game state.  An empty or
/// unrecognized line changes nothing; a recognized command hands its
/// parsed arguments to the corresponding operation of
/// [`crate::model`], and a missing or non-numeric argument is refused as
/// malformed.  Arguments beyond those a command reads are ignored.
pub open spec fn do_command_spec(v: GameV, s: Seq<u8>) -> (GameV, Result<(), GameError>) {
    let ts = tokens_of(s);
    if ts.len() == 0 {
        (v, Ok(()))
    } else if ts[0] == kw_board() {
        if ts.len() < 3 {
            (v, Err(GameError::Malformed))
        } else {
            match (num_of(ts[1]), num_of(ts[2])) {
                (Some(w), Some(h)) => board_spec(v, w, h),
                _ => (v, Err(GameError::Malformed)),
            }
        }
    } else if ts[0] == kw_players() {
        if ts.len() < 2 {
            (v, Err(GameError::Malformed))
        } else {
            match num_of(ts[1]) {
                Some(c) => players_spec(v, c),
                None => (v, Err(GameError::Malformed)),
            }
        }
    } else if ts[0] == kw_dice() {
        match nums_from(ts, 1) {
            Some(vals) => (dice_spec(v, vals), Ok(())),
            None => (v, Err(GameError::Malformed)),
        }
    } else if ts[0] == kw_snake() || ts[0] == kw_ladder() {
        if ts.len() < 3 {
            (v, Err(GameError::Malformed))
        } else {
            match (num_of(ts[1]), num_of(ts[2])) {
                (Some(from), Some(to)) => abnormal_spec(v, from, to),
                _ => (v, Err(GameError::Malformed)),
            }
        }
    } else if ts[0] == kw_powerup() {
        if ts.len() < 2 {
            (v, Err(GameError::Malformed))
        } else {
            let kind = if ts[1] == kw_antivenom() {
                Some(PowerupType::Antivenom)
            } else if ts[1] == kw_double() {
                Some(PowerupType::Doubleroll)
            } else if ts[1] == kw_escalator() {
                Some(PowerupType::Escalator)
            } else {
                None
            };
            match kind {
                Some(kind) => match nums_from(ts, 2) {
                    Some(cells) => powerup_spec(v, kind, cells),
                    None => (v, Err(GameError::Malformed)),
                },
                // an unknown powerup word is silently ignored
                None => (v, Ok(())),
            }
        }
    } else {
        (v, Ok(()))
    }
}

/// `t` with one trailing carriage return removed, as line splitting
/// strips it.
pub open spec fn strip_cr(t: Seq<u8>) -> Seq<u8> {
    if t.len() > 0 && t.last() == 13 {
        t.drop_last()
    } else {
        t
    }
}

/// The line splitter's state machine: bytes from `i` on, with `cur` the
/// line being read and `acc` the lines already read.  Every input ends
/// one last line, so an input without newlines is one line.
pub open spec fn ln_from(s: Seq<u8>, i: int, cur: Seq<u8>, acc: Seq<Seq<u8>>) -> Seq<Seq<u8>>
    decreases s.len() - i,
{
    if i < 0 || i >= s.len() {
        acc.push(strip_cr(cur))
    } else if s[i] == 10 {
        ln_from(s, i + 1, Seq::empty(), acc.push(strip_cr(cur)))
    } else {
        ln_from(s, i + 1, cur.push(s[i]), acc)
    }
}

/// The lines of an input, split on newlines, each with a trailing
/// carriage return stripped.
pub open spec fn lines_of(s: Seq<u8>) -> Seq<Seq<u8>> {
    ln_from(s, 0, Seq::empty(), Seq::empty())
}

/// The first `k` lines run against a state, stopping at the first
/// configuration error.
pub open spec fn run_lines(v: GameV, ls: Seq<Seq<u8>>, k: int) -> (GameV, Result<(), GameError>)
    decreases k,
{
    if k <= 0 {
        (v, Ok(()))
    } else {
        let prev = run_lines(v, ls, k - 1);
        match prev.1 {
            Ok(_) => do_command_spec(prev.0, ls[k - 1]),
            Err(e) => prev,
        }
    }
}

/// A whole command stream against the empty game.
pub open spec fn read_from_spec(s: Seq<u8>) -> (GameV, Result<(), GameError>) {
    run_lines(empty_view(), lines_of(s), lines_of(s).len() as int)
}

/// Whether `t` spells `board`.
fn is_board(t: &Vec<u8>) -> (r: bool)
    ensures
        r == (t@ == kw_board()),
{
    let r = t.len() == 5 && t[0] == 98 && t[1] == 111 && t[2] == 97 && t[3] == 114 && t[4] == 100;
    proof {
        if r {
            assert(t@ =~= kw_board());
        } else {
            assert(t@ != kw_board());
        }
    }
    r
}

/// Whether `t` spells `players`.
fn is_players(t: &Vec<u8>) -> (r: bool)
    ensures
        r == (t@ == kw_players()),
{
    let r = t.len() == 7 && t[0] == 112 && t[1] == 108 && t[2] == 97 && t[3] == 121 && t[4] == 101 && t[5] == 114 && t[6] == 115;
    proof {
        if r {
            assert(t@ =~= kw_players());
        } else {
            assert(t@ != kw_players());
        }
    }
    r
}

/// Whether `t` spells `dice`.
fn is_dice(t: &Vec<u8>) -> (r: bool)
    ensures
        r == (t@ == kw_dice()),
{
    let r = t.len() == 4 && t[0] == 100 && t[1] == 105 && t[2] == 99 && t[3] == 101;
    proof {
        if r {
            assert(t@ =~= kw_dice());
        } else {
            assert(t@ != kw_dice());
        }
    }
    r
}

/// Whether `t` spells `snake`.
fn is_snake(t: &Vec<u8>) -> (r: bool)
    ensures
        r == (t@ == kw_snake()),
{
    let r = t.len() == 5 && t[0] == 115 && t[1] == 110 && t[2] == 97 && t[3] == 107 && t[4] == 101;
    proof {
        if r {
            assert(t@ =~= kw_snake());
        } else {
            assert(t@ != kw_snake());
        }
    }
    r
}

/// Whether `t` spells `ladder`.
fn is_ladder(t: &Vec<u8>) -> (r: bool)
    ensures
        r == (t@ == kw_ladder()),
{
    let r = t.len() == 6 && t[0] == 108 && t[1] == 97 && t[2] == 100 && t[3] == 100 && t[4] == 101 && t[5] == 114;
    proof {
        if r {
            assert(t@ =~= kw_ladder());
        } else {
            assert(t@ != kw_ladder());
        }
    }
    r
}

/// Whether `t` spells `powerup`.
fn is_powerup(t: &Vec<u8>) -> (r: bool)
    ensures
        r == (t@ == kw_powerup()),
{
    let r = t.len() == 7 && t[0] == 112 && t[1] == 111 && t[2] == 119 && t[3] == 101 && t[4] == 114 && t[5] == 117 && t[6] == 112;
    proof {
        if r {
            assert(t@ =~= kw_powerup());
        } else {
            assert(t@ != kw_powerup());
        }
    }
    r
}

/// Whether `t` spells `antivenom`.
fn is_antivenom(t: &Vec<u8>) -> (r: bool)
    ensures
        r == (t@ == kw_antivenom()),
{
    let r = t.len() == 9 && t[0] == 97 && t[1] == 110 && t[2] == 116 && t[3] == 105 && t[4] == 118 && t[5] == 101 && t[6] == 110 && t[7] == 111 && t[8] == 109;
    proof {
        if r {
            assert(t@ =~= kw_antivenom());
        } else {
            assert(t@ != kw_antivenom());
        }
    }
    r
}

/// Whether `t` spells `double`.
fn is_double(t: &Vec<u8>) -> (r: bool)
    ensures
        r == (t@ == kw_double()),
{
    let r = t.len() == 6 && t[0] == 100 && t[1] == 111 && t[2] == 117 && t[3] == 98 && t[4] == 108 && t[5] == 101;
    proof {
        if r {
            assert(t@ =~= kw_double());
        } else {
            assert(t@ != kw_double());
        }
    }
    r
}

/// Whether `t` spells `escalator`.
fn is_escalator(t: &Vec<u8>) -> (r: bool)
    ensures
        r == (t@ == kw_escalator()),
{
    let r = t.len() == 9 && t[0] == 101 && t[1] == 115 && t[2] == 99 && t[3] == 97 && t[4] == 108 && t[5] == 97 && t[6] == 116 && t[7] == 111 && t[8] == 114;
    proof {
        if r {
            assert(t@ =~= kw_escalator());
        } else {
            assert(t@ != kw_escalator());
        }
    }
    r
}

/// The views of a vector of byte tokens.
pub open spec fn views_of(ts: Seq<Vec<u8>>) -> Seq<Seq<u8>> {
    Seq::new(ts.len(), |i: int| ts[i]@)
}

/// Split a line into its whitespace-separated tokens.
fn tokenize(bytes: &Vec<u8>) -> (ts: Vec<Vec<u8>>)
    ensures
        views_of(ts@) == tokens_of(bytes@),
{
    let mut ts: Vec<Vec<u8>> = Vec::new();
    let mut cur: Vec<u8> = Vec::new();
    proof {
        assert(views_of(ts@) =~= Seq::<Seq<u8>>::empty());
    }
    let mut i: usize = 0;
    while i < bytes.len()
        invariant
            i <= bytes@.len(),
            tokens_of(bytes@) == tok_from(bytes@, i as int, cur@, views_of(ts@)),
        decreases bytes@.len() - i,
    {
        let b = bytes[i];
        if b == 32 || b == 9 || b == 10 || b == 13 || b == 11 || b == 12 {
            if cur.len() > 0 {
                let ghost old_ts = ts@;
                let ghost old_cur = cur@;
                ts.push(cur);
                cur = Vec::new();
                proof {
                    assert(views_of(ts@) =~= views_of(old_ts).push(old_cur));
                }
            } else {
                proof {
                    assert(cur@ =~= Seq::<u8>::empty());
                }
            }
        } else {
            cur.push(b);
        }
        i += 1;
    }
    if cur.len() > 0 {
        let ghost old_ts = ts@;
        let ghost old_cur = cur@;
        ts.push(cur);
        proof {
            assert(views_of(ts@) =~= views_of(old_ts).push(old_cur));
        }
    }
    ts
}

/// A longer digit string has at least the value of its prefix.
proof fn lemma_digits_val_mono(t: Seq<u8>, k: int)
    requires
        0 <= k <= t.len(),
        forall|i: int| 0 <= i < t.len() ==> is_digit(#[trigger] t[i]),
    ensures
        digits_val(t.take(k)) >= 0,
        digits_val(t) >= digits_val(t.take(k)),
    decreases t.len(),
{
    if t.len() == 0 {
    } else if k == t.len() {
        assert(t.take(k) =~= t);
        lemma_digits_val_mono(t.drop_last(), k - 1);
    } else {
        assert(t.drop_last().take(k) =~= t.take(k));
        lemma_digits_val_mono(t.drop_last(), k);
    }
}

/// Parse a token as a number.
fn parse_num(t: &Vec<u8>) -> (r: Option<usize>)
    ensures
        r == num_of(t@),
{
    if t.len() == 0 {
        return None;
    }
    let mut acc: u64 = 0;
    let mut i: usize = 0;
    while i < t.len()
        invariant
            i <= t@.len(),
            forall|k: int| 0 <= k < i ==> is_digit(#[trigger] t@[k]),
            acc == digits_val(t@.take(i as int)),
            acc <= u32::MAX,
        decreases t@.len() - i,
    {
        let b = t[i];
        if b < 48 || b > 57 {
            return None;
        }
        acc = acc * 10 + ((b - 48) as u64);
        i += 1;
        proof {
            assert(t@.take(i as int).drop_last() =~= t@.take(i as int - 1));
            assert(t@.take(i as int).last() == b);
        }
        if acc > 0xffff_ffff {
            proof {
                if forall|k: int| 0 <= k < t@.len() ==> is_digit(#[trigger] t@[k]) {
                    lemma_digits_val_mono(t@, i as int);
                    assert(digits_val(t@) >= digits_val(t@.take(i as int)));
                }
            }
            return None;
        }
    }
    proof {
        assert(t@.take(t@.len() as int) =~= t@);
    }
    Some(acc as usize)
}

/// Parse every token from `from` on as a number.
fn parse_nums(ts: &Vec<Vec<u8>>, from: usize) -> (r: Option<Vec<usize>>)
    requires
        from <= ts@.len(),
    ensures
        match r {
            Some(v) => nums_from(views_of(ts@), from as int) == Some(v@),
            None => nums_from(views_of(ts@), from as int) is None,
        },
{
    let mut out: Vec<usize> = Vec::new();
    let mut i: usize = from;
    while i < ts.len()
        invariant
            from <= i <= ts@.len(),
            nums_upto(views_of(ts@), from as int, i - from) == Some(out@),
        decreases ts@.len() - i,
    {
        match parse_num(&ts[i]) {
            Some(n) => {
                out.push(n);
            },
            None => {
                proof {
                    lemma_nums_upto_none(views_of(ts@), from as int, i - from + 1, (
                    ts@.len() - from) as int);
                }
                return None;
            },
        }
        i += 1;
    }
    Some(out)
}

/// Once a prefix of the arguments fails to parse, the whole list does.
proof fn lemma_nums_upto_none(ts: Seq<Seq<u8>>, from: int, k: int, m: int)
    requires
        k <= m,
        nums_upto(ts, from, k) is None,
    ensures
        nums_upto(ts, from, m) is None,
    decreases m,
{
    if m > k {
        lemma_nums_upto_none(ts, from, k, m - 1);
    }
}

impl Game {
    /// One command, as a line of bytes.  See [`do_command_spec`] for the
    /// grammar and its effect.
    pub fn do_command_bytes(&mut self, bytes: &Vec<u8>) -> (r: Result<(), GameError>)
        ensures
            final(self)@ == do_command_spec(old(self)@, bytes@).0,
            r == do_command_spec(old(self)@, bytes@).1,
            old(self)@.wf() ==> final(self)@.wf(),
    {
        let ts = tokenize(bytes);
        proof {
            assert(views_of(ts@).len() == ts@.len());
        }
        if ts.len() == 0 {
            return Ok(());
        }
        proof {
            assert(views_of(ts@)[0] == ts@[0]@);
        }
        if is_board(&ts[0]) {
            if ts.len() < 3 {
                return Err(GameError::Malformed);
            }
            proof {
                assert(views_of(ts@)[1] == ts@[1]@);
                assert(views_of(ts@)[2] == ts@[2]@);
            }
            let w = match parse_num(&ts[1]) {
                Some(w) => w,
                None => {
                    return Err(GameError::Malformed);
                },
            };
            let h = match parse_num(&ts[2]) {
                Some(h) => h,
                None => {
                    return Err(GameError::Malformed);
                },
            };
            self.board(w, h)
        } else if is_players(&ts[0]) {
            if ts.len() < 2 {
                return Err(GameError::Malformed);
            }
            proof {
                assert(views_of(ts@)[1] == ts@[1]@);
            }
            let c = match parse_num(&ts[1]) {
                Some(c) => c,
                None => {
                    return Err(GameError::Malformed);
                },
            };
            self.players(c)
        } else if is_dice(&ts[0]) {
            let vals = match parse_nums(&ts, 1) {
                Some(v) => v,
                None => {
                    return Err(GameError::Malformed);
                },
            };
            self.dice(vals);
            Ok(())
        } else if is_snake(&ts[0]) || is_ladder(&ts[0]) {
            if ts.len() < 3 {
                return Err(GameError::Malformed);
            }
            proof {
                assert(views_of(ts@)[1] == ts@[1]@);
                assert(views_of(ts@)[2] == ts@[2]@);
            }
            let from = match parse_num(&ts[1]) {
                Some(f) => f,
                None => {
                    return Err(GameError::Malformed);
                },
            };
            let to = match parse_num(&ts[2]) {
                Some(t) => t,
                None => {
                    return Err(GameError::Malformed);
                },
            };
            self.abnormal_cell(from, to)
        } else if is_powerup(&ts[0]) {
            if ts.len() < 2 {
                return Err(GameError::Malformed);
            }
            proof {
                assert(views_of(ts@)[1] == ts@[1]@);
            }
            let kind = if is_antivenom(&ts[1]) {
                PowerupType::Antivenom
            } else if is_double(&ts[1]) {
                PowerupType::Doubleroll
            } else if is_escalator(&ts[1]) {
                PowerupType::Escalator
            } else {
                return Ok(());
            };
            let cells = match parse_nums(&ts, 2) {
                Some(v) => v,
                None => {
                    return Err(GameError::Malformed);
                },
            };
            self.powerup_cells(kind, &cells)
        } else {
            Ok(())
        }
    }

    /// One command, as a line of text.
    pub fn do_command(&mut self, line: &str) -> (r: Result<(), GameError>)
        ensures
            final(self)@ == do_command_spec(old(self)@, line.spec_bytes()).0,
            r == do_command_spec(old(self)@, line.spec_bytes()).1,
            old(self)@.wf() ==> final(self)@.wf(),
    {
        let bytes = line.as_bytes_vec();
        self.do_command_bytes(&bytes)
    }
}

/// Every line already split is a prefix of what the splitter returns.
proof fn lemma_ln_prefix(s: Seq<u8>, i: int, cur: Seq<u8>, acc: Seq<Seq<u8>>)
    requires
        0 <= i,
    ensures
        ({
            let ls = ln_from(s, i, cur, acc);
            &&& acc.len() < ls.len()
            &&& forall|j: int| 0 <= j < acc.len() ==> ls[j] == acc[j]
        }),
    decreases s.len() - i,
{
    if i >= s.len() {
    } else if s[i] == 10 {
        lemma_ln_prefix(s, i + 1, Seq::empty(), acc.push(strip_cr(cur)));
    } else {
        lemma_ln_prefix(s, i + 1, cur.push(s[i]), acc);
    }
}

/// Once a run of lines has failed, the longer runs return the same.
proof fn lemma_run_lines_err(v: GameV, ls: Seq<Seq<u8>>, k: int, m: int)
    requires
        k <= m,
        run_lines(v, ls, k).1 is Err,
    ensures
        run_lines(v, ls, m) == run_lines(v, ls, k),
    decreases m,
{
    if m > k {
        lemma_run_lines_err(v, ls, k, m - 1);
    }
}

/// Build a game from a whole command stream, one command per line,
/// starting from the empty game.  The first configuration error stops
/// the stream and is returned; a stream without one returns the game.
pub fn read_from(input: &str) -> (r: Result<Game, GameError>)
    ensures
        (r matches Ok(g) ==> g@ == read_from_spec(input.spec_bytes()).0 && read_from_spec(
            input.spec_bytes(),
        ).1 is Ok),
        (r matches Err(e) ==> read_from_spec(input.spec_bytes()).1 == Err::<(), GameError>(e)),
        (r matches Ok(g) ==> g@.wf()),
{
    let bytes = input.as_bytes_vec();
    let ghost s = bytes@;
    let ghost ls = lines_of(s);
    let mut g = Game::empty();
    let mut cur: Vec<u8> = Vec::new();
    let ghost mut k: int = 0;
    let mut i: usize = 0;
    proof {
        assert(ls.take(0) =~= Seq::<Seq<u8>>::empty());
        lemma_ln_prefix(s, 0, Seq::empty(), Seq::empty());
    }
    while i < bytes.len()
        invariant
            i <= bytes@.len(),
            s == bytes@,
            s == input.spec_bytes(),
            ls == lines_of(s),
            0 <= k < ls.len(),
            ln_from(s, i as int, cur@, ls.take(k)) == ls,
            run_lines(empty_view(), ls, k) == (g@, Ok::<(), GameError>(())),
            g@.wf(),
        decreases bytes@.len() - i,
    {
        let b = bytes[i];
        if b == 10 {
            let ghost cur0 = cur@;
            proof {
                lemma_ln_prefix(s, i as int + 1, Seq::empty(), ls.take(k).push(strip_cr(cur0)));
                assert(ls.take(k).len() == k);
                assert(ls.take(k).push(strip_cr(cur0))[k] == strip_cr(cur0));
                assert(ls[k] == strip_cr(cur0));
                assert(k + 1 < ls.len() + 1);
                assert(ls.take(k).push(strip_cr(cur0)) =~= ls.take(k + 1));
            }
            if cur.len() > 0 && cur[cur.len() - 1] == 13 {
                cur.pop();
                proof {
                    assert(cur@ =~= strip_cr(cur0));
                }
            }
            proof {
                assert(cur@ == strip_cr(cur0));
                assert(cur@ == ls[k]);
            }
            match g.do_command_bytes(&cur) {
                Ok(_) => {},
                Err(e) => {
                    proof {
                        assert(run_lines(empty_view(), ls, k).1 is Ok);
                        assert(run_lines(empty_view(), ls, k + 1) == do_command_spec(
                            run_lines(empty_view(), ls, k).0,
                            ls[k],
                        ));
                        assert(run_lines(empty_view(), ls, k + 1).1 == Err::<(), GameError>(e));
                        lemma_run_lines_err(empty_view(), ls, k + 1, ls.len() as int);
                        assert(read_from_spec(input.spec_bytes()).1 == Err::<(), GameError>(e));
                    }
                    return Err(e);
                },
            }
            cur = Vec::new();
            proof {
                assert(run_lines(empty_view(), ls, k + 1) == (g@, Ok::<(), GameError>(())));
                k = k + 1;
            }
        } else {
            cur.push(b);
        }
        i += 1;
    }
    let ghost cur0 = cur@;
    proof {
        assert(ln_from(s, i as int, cur0, ls.take(k)) == ls.take(k).push(strip_cr(cur0)));
        assert(ls.take(k).push(strip_cr(cur0)) =~= ls.take(k + 1));
        assert(ls.take(k).push(strip_cr(cur0)).len() == k + 1);
        assert(ls.len() == k + 1);
        assert(ls.take(k + 1) =~= ls);
        assert(ls[k] == strip_cr(cur0));
    }
    if cur.len() > 0 && cur[cur.len() - 1] == 13 {
        cur.pop();
        proof {
            assert(cur@ =~= strip_cr(cur0));
        }
    }
    proof {
        assert(cur@ == ls[k]);
    }
    match g.do_command_bytes(&cur) {
        Ok(_) => {},
        Err(e) => {
            return Err(e);
        },
    }
    Ok(g)
}

} // verus!

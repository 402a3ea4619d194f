use vstd::prelude::*;
use vstd::string::StringSliceAdditionalSpecFns;
use crate::search::SearchDepth;
use crate::square::Side;
use crate::fen::{digits_value, number_of};

verus! {

/// Why a UCI command was refused.
#[derive(Clone, Copy, Debug, PartialEq, Eq, Structural)]
pub enum UciError {
    MissingDepth,
    InvalidDepth,
    MissingValue,
    InvalidPosition,
}

/// The search limits of a `go` command.
#[derive(Clone, Copy, Debug, PartialEq, Eq, Structural)]
pub struct GoParams {
    pub depth: SearchDepth,
    pub time_remaining: Option<u128>,
    pub increment: u128,
    pub moves_to_go: Option<u64>,
}

/// A `position` command: the byte range of its FEN (none for `startpos`) and the byte
/// ranges of the moves to play after it.
pub struct PositionCommand {
    pub fen: Option<(usize, usize)>,
    pub moves: Vec<(usize, usize)>,
}

pub open spec fn is_space(c: u8) -> bool {
    c == 32 || c == 9 || c == 10 || c == 13 || c == 12
}

/// `ws` are the maximal runs of non-whitespace bytes of `b`, in order.
#[verifier::opaque]
pub open spec fn is_word_split(b: Seq<u8>, ws: Seq<(usize, usize)>) -> bool {
    &&& forall|k: int| 0 <= k < ws.len() ==> (#[trigger] ws[k]).0 < ws[k].1 <= b.len()
    &&& forall|k: int, i: int| #![trigger ws[k], b[i]] 0 <= k < ws.len() && ws[k].0 <= i < ws[k].1 ==> !is_space(b[i])
    &&& forall|k: int| 0 <= k < ws.len() ==> ((#[trigger] ws[k]).0 == 0 || is_space(b[ws[k].0 - 1])) && (ws[k].1 == b.len()
        || is_space(b[ws[k].1 as int]))
    &&& forall|k: int| 0 <= k < ws.len() - 1 ==> (#[trigger] ws[k]).1 < ws[k + 1].0
    &&& forall|i: int| 0 <= i < b.len() && !is_space(#[trigger] b[i]) ==> exists|k: int| 0 <= k < ws.len() && (#[trigger] ws[k]).0 <= i < ws[k].1
}

pub open spec fn word_eq(b: Seq<u8>, w: (usize, usize), word: Seq<u8>) -> bool {
    b.subrange(w.0 as int, w.1 as int) == word
}

pub open spec fn word_depth() -> Seq<u8> {
    seq![100u8, 101u8, 112u8, 116u8, 104u8]
}

pub open spec fn word_wtime() -> Seq<u8> {
    seq![119u8, 116u8, 105u8, 109u8, 101u8]
}

pub open spec fn word_btime() -> Seq<u8> {
    seq![98u8, 116u8, 105u8, 109u8, 101u8]
}

pub open spec fn word_winc() -> Seq<u8> {
    seq![119u8, 105u8, 110u8, 99u8]
}

pub open spec fn word_binc() -> Seq<u8> {
    seq![98u8, 105u8, 110u8, 99u8]
}

pub open spec fn word_movestogo() -> Seq<u8> {
    seq![109u8, 111u8, 118u8, 101u8, 115u8, 116u8, 111u8, 103u8, 111u8]
}

pub open spec fn word_moves() -> Seq<u8> {
    seq![109u8, 111u8, 118u8, 101u8, 115u8]
}

pub open spec fn word_startpos() -> Seq<u8> {
    seq![115u8, 116u8, 97u8, 114u8, 116u8, 112u8, 111u8, 115u8]
}

pub open spec fn word_fen() -> Seq<u8> {
    seq![102u8, 101u8, 110u8]
}

fn bytes_depth() -> (r: [u8; 5])
    ensures
        r@ == word_depth(),
{
    let r = [100u8, 101u8, 112u8, 116u8, 104u8];
    proof {
        assert(r@ =~= word_depth());
    }
    r
}

fn bytes_wtime() -> (r: [u8; 5])
    ensures
        r@ == word_wtime(),
{
    let r = [119u8, 116u8, 105u8, 109u8, 101u8];
    proof {
        assert(r@ =~= word_wtime());
    }
    r
}

fn bytes_btime() -> (r: [u8; 5])
    ensures
        r@ == word_btime(),
{
    let r = [98u8, 116u8, 105u8, 109u8, 101u8];
    proof {
        assert(r@ =~= word_btime());
    }
    r
}

fn bytes_winc() -> (r: [u8; 4])
    ensures
        r@ == word_winc(),
{
    let r = [119u8, 105u8, 110u8, 99u8];
    proof {
        assert(r@ =~= word_winc());
    }
    r
}

fn bytes_binc() -> (r: [u8; 4])
    ensures
        r@ == word_binc(),
{
    let r = [98u8, 105u8, 110u8, 99u8];
    proof {
        assert(r@ =~= word_binc());
    }
    r
}

fn bytes_movestogo() -> (r: [u8; 9])
    ensures
        r@ == word_movestogo(),
{
    let r = [109u8, 111u8, 118u8, 101u8, 115u8, 116u8, 111u8, 103u8, 111u8];
    proof {
        assert(r@ =~= word_movestogo());
    }
    r
}

fn bytes_moves() -> (r: [u8; 5])
    ensures
        r@ == word_moves(),
{
    let r = [109u8, 111u8, 118u8, 101u8, 115u8];
    proof {
        assert(r@ =~= word_moves());
    }
    r
}

fn bytes_startpos() -> (r: [u8; 8])
    ensures
        r@ == word_startpos(),
{
    let r = [115u8, 116u8, 97u8, 114u8, 116u8, 112u8, 111u8, 115u8];
    proof {
        assert(r@ =~= word_startpos());
    }
    r
}

fn bytes_fen() -> (r: [u8; 3])
    ensures
        r@ == word_fen(),
{
    let r = [102u8, 101u8, 110u8];
    proof {
        assert(r@ =~= word_fen());
    }
    r
}

fn is_space_byte(c: u8) -> (r: bool)
    ensures
        r == is_space(c),
{
    c == 32u8 || c == 9u8 || c == 10u8 || c == 13u8 || c == 12u8
}

pub proof fn lemma_word_bounds(b: Seq<u8>, ws: Seq<(usize, usize)>)
    requires
        is_word_split(b, ws),
    ensures
        forall|k: int| 0 <= k < ws.len() ==> (#[trigger] ws[k]).0 < ws[k].1 <= b.len(),
{
    reveal(is_word_split);
}

/// The whitespace-separated words of `b`, as byte ranges.
pub fn split_words(b: &[u8]) -> (r: Vec<(usize, usize)>)
    ensures
        is_word_split(b@, r@),
        forall|k: int| 0 <= k < r@.len() ==> (#[trigger] r@[k]).0 < r@[k].1 <= b@.len(),
{
    let end = b.len();
    let mut words: Vec<(usize, usize)> = Vec::new();
    let mut i: usize = 0;
    while i < end
        invariant
            i <= end,
            end == b@.len(),
            forall|k: int| 0 <= k < words@.len() ==> (#[trigger] words@[k]).0 < words@[k].1 <= i,
            forall|k: int, j: int| #![trigger words@[k], b@[j]] 0 <= k < words@.len() && words@[k].0 <= j < words@[k].1 ==> !is_space(b@[j]),
            forall|k: int| 0 <= k < words@.len() ==> ((#[trigger] words@[k]).0 == 0 || is_space(b@[words@[k].0 - 1])) && (words@[k].1
                == b@.len() || is_space(b@[words@[k].1 as int])),
            forall|k: int| 0 <= k < words@.len() - 1 ==> (#[trigger] words@[k]).1 < words@[k + 1].0,
            forall|j: int| 0 <= j < i && !is_space(#[trigger] b@[j]) ==> exists|k: int| 0 <= k < words@.len() && (#[trigger] words@[k]).0 <= j < words@[k].1,
            i == 0 || is_space(b@[i - 1]) || (words@.len() > 0 && words@[words@.len() - 1].1 == i),
        decreases end - i,
    {
        if is_space_byte(b[i]) {
            i += 1;
        } else {
            let w = i;
            while i < end && !is_space_byte(b[i])
                invariant
                    w <= i <= end,
                    end == b@.len(),
                    w < end,
                    !is_space(b@[w as int]),
                    forall|j: int| w <= j < i ==> !is_space(b@[j]),
                decreases end - i,
            {
                i += 1;
            }
            let ghost old_words = words@;
            words.push((w, i));
            proof {
                assert forall|j: int| 0 <= j < i && !is_space(#[trigger] b@[j]) implies exists|k: int| 0 <= k < words@.len() && (#[trigger] words@[k]).0 <= j < words@[k].1 by {
                    if j >= w {
                        assert(words@[words@.len() - 1] == (w, i));
                    } else {
                        let k = choose|k: int| 0 <= k < old_words.len() && (#[trigger] old_words[k]).0 <= j < old_words[k].1;
                        assert(words@[k] == old_words[k]);
                    }
                }
            }
        }
    }
    proof {
        reveal(is_word_split);
    }
    words
}

/// Reads a decimal number (an optional leading `+`, then digits) no larger than `max`.
pub fn parse_number(b: &[u8], start: usize, end: usize, max: u128) -> (r: Option<u128>)
    requires
        start <= end <= b@.len(),
    ensures
        r is Some <==> number_of(b@, start as int, end as int, max as int) is Some,
        r is Some ==> r->Some_0 == number_of(b@, start as int, end as int, max as int)->Some_0,
{
    let mut i = start;
    if i < end && b[i] == 43u8 {
        i += 1;
    }
    if i >= end {
        return None;
    }
    let ghost i0 = i as int;
    let mut value: u128 = 0;
    while i < end
        invariant
            i0 <= i <= end,
            end <= b@.len(),
            value <= max,
            number_of(b@, start as int, end as int, max as int) == digits_value(b@, i0, end as int, 0, max as int),
            digits_value(b@, i0, end as int, 0, max as int) == digits_value(b@, i as int, end as int, value as int, max as int),
        decreases end - i,
    {
        let c = b[i];
        if c < 48u8 || c > 57u8 {
            return None;
        }
        let d = (c - 48u8) as u128;
        if d > max || value > (max - d) / 10 {
            proof {
                if d <= max {
                    assert(value * 10 + d > max) by (nonlinear_arith)
                        requires
                            value > (max - d) / 10,
                            d <= max,
                    ;
                }
            }
            return None;
        }
        proof {
            assert(value * 10 + d <= max) by (nonlinear_arith)
                requires
                    value <= (max - d) / 10,
                    d <= max,
            ;
        }
        value = value * 10 + d;
        i += 1;
    }
    Some(value)
}

/// Whether `b[start..end]` spells `word`.
pub fn word_is(b: &[u8], start: usize, end: usize, word: &[u8]) -> (r: bool)
    requires
        start <= end <= b@.len(),
    ensures
        r == (b@.subrange(start as int, end as int) == word@),
{
    if end - start != word.len() {
        proof {
            assert(b@.subrange(start as int, end as int).len() != word@.len());
        }
        return false;
    }
    let mut i: usize = 0;
    while i < word.len()
        invariant
            end - start == word@.len(),
            start <= end <= b@.len(),
            i <= word@.len(),
            forall|j: int| 0 <= j < i ==> b@[start + j] == word@[j],
        decreases word@.len() - i,
    {
        if b[start + i] != word[i] {
            proof {
                assert(b@.subrange(start as int, end as int)[i as int] != word@[i as int]);
            }
            return false;
        }
        i += 1;
    }
    proof {
        assert(b@.subrange(start as int, end as int) =~= word@);
    }
    true
}

pub open spec fn default_go() -> GoParams {
    GoParams { depth: SearchDepth::Infinite, time_remaining: None, increment: 0, moves_to_go: None }
}

/// The `go` arguments from word `k` on, on top of `p`: `depth N`, `wtime`/`btime T` and
/// `winc`/`binc I` of the side to move (an unreadable time means none, an unreadable
/// increment 0), `movestogo M` (unreadable means none). Other words are skipped; a keyword
/// without its value, or an unreadable depth, refuses the command.
pub open spec fn go_scan(b: Seq<u8>, ws: Seq<(usize, usize)>, k: int, p: GoParams, side: Side) -> Result<GoParams, UciError>
    decreases ws.len() - k,
{
    if k >= ws.len() || k < 0 {
        Ok(p)
    } else {
        let w = ws[k];
        let white = side == Side::White;
        let is_depth = word_eq(b, w, word_depth());
        let is_time = (white && word_eq(b, w, word_wtime())) || (!white && word_eq(b, w, word_btime()));
        let is_inc = (white && word_eq(b, w, word_winc())) || (!white && word_eq(b, w, word_binc()));
        let is_mtg = word_eq(b, w, word_movestogo());
        if is_depth || is_time || is_inc || is_mtg {
            if k + 1 >= ws.len() {
                Err(if is_depth { UciError::MissingDepth } else { UciError::MissingValue })
            } else {
                let v = ws[k + 1];
                if is_depth {
                    match number_of(b, v.0 as int, v.1 as int, 255) {
                        Some(d) => go_scan(b, ws, k + 2, GoParams { depth: SearchDepth::Finite(d as u8), ..p }, side),
                        None => Err(UciError::InvalidDepth),
                    }
                } else if is_time {
                    let t = match number_of(b, v.0 as int, v.1 as int, u128::MAX as int) {
                        Some(x) => Some(x as u128),
                        None => None,
                    };
                    go_scan(b, ws, k + 2, GoParams { time_remaining: t, ..p }, side)
                } else if is_inc {
                    let i = match number_of(b, v.0 as int, v.1 as int, u128::MAX as int) {
                        Some(x) => x as u128,
                        None => 0,
                    };
                    go_scan(b, ws, k + 2, GoParams { increment: i, ..p }, side)
                } else {
                    let m = match number_of(b, v.0 as int, v.1 as int, 0xffff_ffff_ffff_ffff) {
                        Some(x) => Some(x as u64),
                        None => None,
                    };
                    go_scan(b, ws, k + 2, GoParams { moves_to_go: m, ..p }, side)
                }
            }
        } else {
            go_scan(b, ws, k + 1, p, side)
        }
    }
}

/// Reads the arguments of a `go` command (see `go_scan`).
pub fn parse_go(args: &str, side: Side) -> (r: Result<GoParams, UciError>)
    ensures
        exists|ws: Seq<(usize, usize)>| is_word_split(args.spec_bytes(), ws) && r == go_scan(args.spec_bytes(), ws, 0, default_go(), side),
{
    let b = args.as_bytes();
    let words = split_words(b);
    let mut params = GoParams { depth: SearchDepth::Infinite, time_remaining: None, increment: 0, moves_to_go: None };
    let white = side == Side::White;
    let w_depth = bytes_depth();
    let w_wtime = bytes_wtime();
    let w_btime = bytes_btime();
    let w_winc = bytes_winc();
    let w_binc = bytes_binc();
    let w_mtg = bytes_movestogo();
    let mut k: usize = 0;
    while k < words.len()
        invariant
            is_word_split(b@, words@),
            forall|j: int| 0 <= j < words@.len() ==> (#[trigger] words@[j]).0 < words@[j].1 <= b@.len(),
            b@ == args.spec_bytes(),
            white == (side == Side::White),
            w_depth@ == word_depth(),
            w_wtime@ == word_wtime(),
            w_btime@ == word_btime(),
            w_winc@ == word_winc(),
            w_binc@ == word_binc(),
            w_mtg@ == word_movestogo(),
            k <= words@.len(),
            go_scan(b@, words@, 0, default_go(), side) == go_scan(b@, words@, k as int, params, side),
        decreases words@.len() - k,
    {
        let (s, e) = words[k];
        let is_depth = word_is(b, s, e, &w_depth);
        let is_time = (white && word_is(b, s, e, &w_wtime)) || (!white && word_is(b, s, e, &w_btime));
        let is_inc = (white && word_is(b, s, e, &w_winc)) || (!white && word_is(b, s, e, &w_binc));
        let is_mtg = word_is(b, s, e, &w_mtg);
        if is_depth || is_time || is_inc || is_mtg {
            if k + 1 >= words.len() {
                return Err(if is_depth { UciError::MissingDepth } else { UciError::MissingValue });
            }
            let (vs, ve) = words[k + 1];
            if is_depth {
                match parse_number(b, vs, ve, 255) {
                    Some(d) => { params.depth = SearchDepth::Finite(d as u8); },
                    None => { return Err(UciError::InvalidDepth); },
                }
            } else if is_time {
                params.time_remaining = parse_number(b, vs, ve, u128::MAX);
            } else if is_inc {
                params.increment = match parse_number(b, vs, ve, u128::MAX) {
                    Some(i) => i,
                    None => 0,
                };
            } else {
                params.moves_to_go = match parse_number(b, vs, ve, 0xffff_ffff_ffff_ffffu128) {
                    Some(m) => Some(m as u64),
                    None => None,
                };
            }
            k += 2;
        } else {
            k += 1;
        }
    }
    Ok(params)
}

/// The index of the first word `moves` from word `m` on (the word count if none).
pub open spec fn first_moves(b: Seq<u8>, ws: Seq<(usize, usize)>, m: int) -> int
    decreases ws.len() - m,
{
    if m >= ws.len() || m < 0 {
        ws.len() as int
    } else if word_eq(b, ws[m], word_moves()) {
        m
    } else {
        first_moves(b, ws, m + 1)
    }
}

/// A `position` command's words read: `startpos` or `fen` followed by the FEN words up to
/// `moves`, then the move words; `None` when it is neither form.
pub open spec fn position_of(b: Seq<u8>, ws: Seq<(usize, usize)>) -> Option<(Option<(usize, usize)>, Seq<(usize, usize)>)> {
    if ws.len() == 0 {
        None
    } else {
        let is_start = word_eq(b, ws[0], word_startpos());
        let is_fen = word_eq(b, ws[0], word_fen());
        let m = first_moves(b, ws, 1);
        let moves = ws.subrange(if m < ws.len() { m + 1 } else { m }, ws.len() as int);
        if is_start {
            Some((None, moves))
        } else if !is_fen || m < 2 || ws[1].0 > ws[m - 1].1 {
            None
        } else {
            Some((Some((ws[1].0, ws[m - 1].1)), moves))
        }
    }
}

/// Reads the arguments of a `position` command: `startpos` or `fen <fen>`, then optionally
/// `moves m1 m2 ...` (see `position_of`).
pub fn parse_position(args: &str) -> (r: Result<PositionCommand, UciError>)
    ensures
        exists|ws: Seq<(usize, usize)>|
            is_word_split(args.spec_bytes(), ws) && (r is Ok <==> position_of(args.spec_bytes(), ws) is Some) && (r is Ok
                ==> r->Ok_0.fen == position_of(args.spec_bytes(), ws)->Some_0.0 && r->Ok_0.moves@ == position_of(
                args.spec_bytes(),
                ws,
            )->Some_0.1),
        r is Ok ==> forall|k: int| 0 <= k < r->Ok_0.moves@.len() ==> (#[trigger] r->Ok_0.moves@[k]).0 < r->Ok_0.moves@[k].1 <= args.spec_bytes().len(),
        r is Ok && r->Ok_0.fen is Some ==> r->Ok_0.fen->Some_0.0 <= r->Ok_0.fen->Some_0.1 <= args.spec_bytes().len(),
{
    let b = args.as_bytes();
    let words = split_words(b);
    if words.len() == 0 {
        return Err(UciError::InvalidPosition);
    }
    let (s, e) = words[0];
    let w_start = bytes_startpos();
    let w_fen = bytes_fen();
    let w_moves = bytes_moves();
    let is_start = word_is(b, s, e, &w_start);
    let is_fen = word_is(b, s, e, &w_fen);
    if !is_start && !is_fen {
        return Err(UciError::InvalidPosition);
    }
    let mut m: usize = 1;
    while m < words.len()
        invariant
            1 <= m <= words@.len(),
            forall|j: int| 0 <= j < words@.len() ==> (#[trigger] words@[j]).0 < words@[j].1 <= b@.len(),
            w_moves@ == word_moves(),
            first_moves(b@, words@, 1) == first_moves(b@, words@, m as int),
        ensures
            1 <= m <= words@.len(),
            first_moves(b@, words@, 1) == m,
        decreases words@.len() - m,
    {
        let (ws, we) = words[m];
        if word_is(b, ws, we, &w_moves) {
            break;
        }
        m += 1;
    }
    let fen = if is_start {
        None
    } else {
        if m < 2 {
            return Err(UciError::InvalidPosition);
        }
        let (f0, _) = words[1];
        let (_, f1) = words[m - 1];
        if f0 > f1 {
            return Err(UciError::InvalidPosition);
        }
        Some((f0, f1))
    };
    let first = if m < words.len() { m + 1 } else { m };
    let mut moves: Vec<(usize, usize)> = Vec::new();
    let mut k = first;
    while k < words.len()
        invariant
            first <= k <= words@.len(),
            moves@ == words@.subrange(first as int, k as int),
        decreases words@.len() - k,
    {
        moves.push(words[k]);
        k += 1;
        proof {
            assert(moves@ =~= words@.subrange(first as int, k as int));
        }
    }
    proof {
        assert(moves@ =~= words@.subrange(first as int, words@.len() as int));
        assert forall|j: int| 0 <= j < moves@.len() implies (#[trigger] moves@[j]).0 < moves@[j].1 <= b@.len() by {
            assert(moves@[j] == words@[first + j]);
        }
    }
    Ok(PositionCommand { fen, moves })
}

} // verus!

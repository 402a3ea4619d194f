use vstd::prelude::*;
use vstd::string::StringSliceAdditionalSpecFns;
use crate::board::{Board, BoardError, view_ok};
use crate::evaluate::insufficient_material;
use crate::make_move::{lemma_make_unmake, lemma_in_check_view, in_check_view, make_result, no_legal_move, spec_in_check};
use crate::move_generator::generated_move;
use crate::moves::{Move, MoveKind, MoveList};
use crate::square::{PieceKind, Side};
use crate::time_management::{SearchTimer, unlimited_running};
use crate::transposition_table::{
    CHECKMATE_THRESHOLD, SearchEntryFlag, SearchTableEntry, TranspositionTable,
};

verus! {

pub const MAX_PLY: u8 = 64;
pub const INFINITY: i32 = 100000;
pub const CAPTURE_SCORE_OFFSET: i32 = 1000;
pub const TT_SCORE_OFFSET: i32 = 11000;
pub const FIRST_KILLER_SCORE: i32 = 999;
pub const SECOND_KILLER_SCORE: i32 = 998;
pub const COUNTER_MOVE_BONUS: i32 = 1;
/// History scores stay below the killer scores (and leave room for the counter-move bonus).
pub const MAX_HISTORY_SCORE: u32 = 996;
pub const DEFAULT_TABLE_MB: usize = 64;
pub const KILLER_SLOTS: usize = 130;
pub const HISTORY_SLOTS: usize = 8192;

/// How deep to search: a number of plies, or as deep as the engine goes.
#[derive(Clone, Copy, Debug, PartialEq, Eq, Structural)]
pub enum SearchDepth {
    Finite(u8),
    Infinite,
}

impl SearchDepth {
    pub fn plies(self) -> (r: u8)
        ensures
            r == match self {
                SearchDepth::Finite(d) => d,
                SearchDepth::Infinite => MAX_PLY,
            },
    {
        match self {
            SearchDepth::Finite(d) => d,
            SearchDepth::Infinite => MAX_PLY,
        }
    }
}

#[derive(Clone, Copy, Debug, PartialEq, Eq, Structural)]
pub struct SearchInfo {
    pub ply: u8,
    pub nodes_searched: u64,
}

/// What one completed iteration of the deepening search found.
pub struct IterationInfo {
    pub depth: u8,
    pub score: i32,
    pub nodes: u64,
    pub pv: Vec<Move>,
}

/// The search settings stay: the depth limit, the time budget and the start time.
pub open spec fn settings_kept(a: &Search, b: &Search) -> bool {
    &&& b.spec_max_depth() == a.spec_max_depth()
    &&& b.spec_timer().allowed_duration == a.spec_timer().allowed_duration
    &&& b.spec_timer().start_time == a.spec_timer().start_time
}

/// `best` is the first move of the last iteration's line (the null move if that line is
/// empty).
pub open spec fn last_best(iterations: Seq<IterationInfo>, best: Move) -> bool {
    let pv = iterations.last().pv@;
    if pv.len() > 0 {
        best == pv[0]
    } else {
        best.spec_bits() == 0
    }
}

/// How a score reads in UCI: a forced mate in some moves (negative when the engine is
/// being mated), or centipawns.
#[derive(Clone, Copy, Debug, PartialEq, Eq, Structural)]
pub enum ScoreReport {
    Mate(i32),
    Centipawns(i32),
}

pub open spec fn spec_score_report(score: int) -> ScoreReport {
    let a = if score >= 0 { score } else { -score };
    if a > CHECKMATE_THRESHOLD {
        let plies = INFINITY - a;
        let moves = plies / 2 + plies % 2;
        ScoreReport::Mate((if score >= 0 { moves } else { -moves }) as i32)
    } else {
        ScoreReport::Centipawns(score as i32)
    }
}

/// Reads a search score as UCI reports it: `|s| > CHECKMATE_THRESHOLD` is a mate in
/// `INFINITY - |s|` plies, rounded up to whole moves.
pub fn score_report(score: i32) -> (r: ScoreReport)
    requires
        -INFINITY <= score <= INFINITY,
    ensures
        r == spec_score_report(score as int),
{
    let a = if score >= 0 { score } else { -score };
    if a > CHECKMATE_THRESHOLD {
        let plies = INFINITY - a;
        let moves = plies / 2 + plies % 2;
        ScoreReport::Mate(if score >= 0 { moves } else { -moves })
    } else {
        ScoreReport::Centipawns(score)
    }
}

/// Number of earlier positions since the last irreversible move whose hash equals the
/// current one.
pub open spec fn repetitions(hashes: Seq<u64>, clock: nat, hash: u64, k: int) -> int
    decreases hashes.len() - k,
{
    if k >= hashes.len() || k < 0 {
        0
    } else {
        repetitions(hashes, clock, hash, k + 1) + if hashes[k] == hash { 1int } else { 0int }
    }
}

impl Board {
    pub open spec fn spec_history_hashes(&self) -> Seq<u64> {
        self@.history.map_values(|item: crate::board::HistoryItem| item.hash)
    }

    pub open spec fn spec_repetitions(&self) -> int {
        let len = self@.history.len() as int;
        let from = if self@.clock as int >= len { 0 } else { len - self@.clock };
        repetitions(self.spec_history_hashes(), self@.clock, self@.hash, from)
    }

    /// Whether the position is drawn: the fifty-move rule, insufficient material, or the
    /// position standing for the third time (two earlier occurrences since the last pawn
    /// move or capture).
    pub fn is_draw(&self) -> (r: bool)
        requires
            self.inv(),
        ensures
            r == (self@.clock >= 100 || insufficient_material(self@.pieces) || self.spec_repetitions() >= 2),
    {
        if self.halfmove_clock() >= 100 {
            return true;
        }
        if self.has_insufficient_material() {
            return true;
        }
        let len = self.history_length();
        let clock = self.halfmove_clock();
        let start = if clock >= len { 0 } else { len - clock };
        let hash = self.hash();
        let mut count: usize = 0;
        let mut k = len;
        while k > start
            invariant
                start <= k <= len,
                len == self@.history.len(),
                hash == self@.hash,
                count as int == repetitions(self.spec_history_hashes(), self@.clock, self@.hash, k as int),
                count <= len - k,
            decreases k,
        {
            k -= 1;
            proof {
                assert(self.spec_history_hashes().len() == self@.history.len());
                assert(self.spec_history_hashes()[k as int] == self@.history[k as int].hash);
                assert(repetitions(self.spec_history_hashes(), self@.clock, self@.hash, k as int) == repetitions(
                    self.spec_history_hashes(),
                    self@.clock,
                    self@.hash,
                    k + 1,
                ) + if self.spec_history_hashes()[k as int] == self@.hash { 1int } else { 0int });
            }
            if self.history_hash(k) == hash {
                count += 1;
            }
        }
        count >= 2
    }
}

/// The searcher: its board, transposition table, timer and move-ordering tables.
pub struct Search {
    transposition_table: TranspositionTable<SearchTableEntry>,
    pub board: Board,
    pub search_info: SearchInfo,
    pub timer: SearchTimer,
    pub max_depth: u8,
    killer_moves: Vec<Move>,
    history: Vec<u32>,
    counter_moves: Vec<Move>,
}

pub open spec fn score_ok(s: int) -> bool {
    -INFINITY <= s <= INFINITY
}

impl Search {
    pub closed spec fn wf(&self) -> bool {
        &&& self.board.wf()
        &&& self.transposition_table.wf()
        &&& self.killer_moves@.len() == KILLER_SLOTS
        &&& self.history@.len() == HISTORY_SLOTS
        &&& forall|k: int| 0 <= k < HISTORY_SLOTS ==> #[trigger] self.history@[k] <= MAX_HISTORY_SCORE
        &&& self.counter_moves@.len() == HISTORY_SLOTS
        &&& self.search_info.ply <= MAX_PLY
    }

    /// The searcher's board.
    pub closed spec fn spec_board(&self) -> Board {
        self.board
    }

    /// The searcher's timer.
    pub closed spec fn spec_timer(&self) -> SearchTimer {
        self.timer
    }

    /// The deepest iteration the deepening search runs.
    pub closed spec fn spec_max_depth(&self) -> u8 {
        self.max_depth
    }

    /// The current distance from the root of the search.
    pub closed spec fn spec_ply(&self) -> u8 {
        self.search_info.ply
    }

    /// A searcher on the starting position with empty tables.
    pub fn new() -> (r: Search)
        ensures
            r.wf(),
            r.spec_ply() == 0,
    {
        let mut board = Board::new();
        let _ = board.parse_fen(crate::fen::START_POSITION_FEN);
        let tt: TranspositionTable<SearchTableEntry> = TranspositionTable::new(DEFAULT_TABLE_MB);
        Search {
            transposition_table: tt,
            board,
            search_info: SearchInfo { ply: 0, nodes_searched: 0 },
            timer: SearchTimer::new(),
            max_depth: MAX_PLY,
            killer_moves: vec![Move::null(); KILLER_SLOTS],
            history: vec![0u32; HISTORY_SLOTS],
            counter_moves: vec![Move::null(); HISTORY_SLOTS],
        }
    }

    /// Its board is consistent and the search is at most `MAX_PLY` deep.
    pub proof fn lemma_wf(&self)
        requires
            self.wf(),
        ensures
            self.spec_board().wf(),
            self.spec_ply() <= MAX_PLY,
    {
    }

    /// Sets up the position of a FEN record on the searcher's board (left as it was when the
    /// record is malformed); everything else stays.
    pub fn load_fen(&mut self, fen: &str) -> (r: Result<(), crate::square::ParseError>)
        requires
            old(self).wf(),
        ensures
            final(self).wf(),
            final(self).spec_ply() == old(self).spec_ply(),
            settings_kept(old(self), final(self)),
            final(self).spec_timer() == old(self).spec_timer(),
            r is Err ==> final(self).spec_board()@ == old(self).spec_board()@,
            r is Ok ==> final(self).spec_board()@.history.len() == 0 && exists|fields: Seq<(usize, usize)>, ranks: Seq<(usize, usize)>|
                crate::fen::is_split(fen.spec_bytes(), 0, fen.spec_bytes().len() as int, 32, fields) && fields.len() == 6
                    && crate::fen::is_split(fen.spec_bytes(), fields[0].0 as int, fields[0].1 as int, 47, ranks)
                    && crate::fen::fen_reads(fen.spec_bytes(), fields, ranks) && crate::board::fen_board(final(self).spec_board()@, fen.spec_bytes(), fields, ranks),
    {
        self.board.parse_fen(fen)
    }

    /// Puts the searcher back in its initial state.
    pub fn reset(&mut self)
        ensures
            final(self).wf(),
    {
        *self = Search::new();
    }
}

/// The moves of `b` keep what `generated_move` looks at (squares, kind, flag) from `a`.
pub open spec fn same_moves(a: Seq<Move>, b: Seq<Move>) -> bool {
    &&& a.len() == b.len()
    &&& forall|k: int| 0 <= k < a.len() ==> (#[trigger] b[k]).spec_from() == a[k].spec_from() && b[k].spec_to()
        == a[k].spec_to() && b[k].spec_kind() == a[k].spec_kind() && b[k].spec_flag_code() == a[k].spec_flag_code()
}

proof fn lemma_generated_kept(v: crate::board::BoardView, a: Seq<Move>, b: Seq<Move>)
    requires
        same_moves(a, b),
        forall|k: int| 0 <= k < a.len() ==> generated_move(v, #[trigger] a[k]),
    ensures
        forall|k: int| 0 <= k < b.len() ==> generated_move(v, #[trigger] b[k]),
{
    assert forall|k: int| 0 <= k < b.len() implies generated_move(v, #[trigger] b[k]) by {
        assert(generated_move(v, a[k]));
    }
}

proof fn lemma_generated_swap(v: crate::board::BoardView, a: Seq<Move>, b: Seq<Move>, c: int)
    requires
        0 <= c < a.len(),
        exists|j: int| c <= j < a.len() && b == a.update(c, a[j]).update(j, a[c]),
        forall|k: int| 0 <= k < a.len() ==> generated_move(v, #[trigger] a[k]),
    ensures
        b.len() == a.len(),
        forall|k: int| 0 <= k < b.len() ==> generated_move(v, #[trigger] b[k]),
{
    let j = choose|j: int| c <= j < a.len() && b == a.update(c, a[j]).update(j, a[c]);
    assert forall|k: int| 0 <= k < b.len() implies generated_move(v, #[trigger] b[k]) by {
        if k == j {
            assert(b[k] == a[c]);
        } else if k == c {
            assert(b[k] == a[j]);
        } else {
            assert(b[k] == a[k]);
        }
    }
}

proof fn lemma_rule_kept(b: &Board, a: Seq<Move>, c: Seq<Move>)
    requires
        same_moves(a, c),
        crate::move_generator::all_by_rule(b, a, 0),
    ensures
        crate::move_generator::all_by_rule(b, c, 0),
{
    assert forall|k: int| 0 <= k < c.len() implies crate::move_generator::by_rule(b, #[trigger] c[k]) by {
        assert(crate::move_generator::by_rule(b, a[k]));
    }
}

proof fn lemma_rule_swap(b: &Board, a: Seq<Move>, c: Seq<Move>, i: int)
    requires
        0 <= i < a.len(),
        exists|j: int| i <= j < a.len() && c == a.update(i, a[j]).update(j, a[i]),
        crate::move_generator::all_by_rule(b, a, 0),
    ensures
        crate::move_generator::all_by_rule(b, c, 0),
{
    let j = choose|j: int| i <= j < a.len() && c == a.update(i, a[j]).update(j, a[i]);
    assert forall|k: int| 0 <= k < c.len() implies crate::move_generator::by_rule(b, #[trigger] c[k]) by {
        if k == j {
            assert(c[k] == a[i]);
        } else if k == i {
            assert(c[k] == a[j]);
        } else {
            assert(c[k] == a[k]);
        }
    }
}

impl Search {
    fn history_index(side: Side, from: usize, to: usize) -> (r: usize)
        requires
            from < 64,
            to < 64,
        ensures
            r < HISTORY_SLOTS,
            r == side.spec_index() * 4096 + from * 64 + to,
    {
        side.index() * 4096 + from * 64 + to
    }

    fn get_history_score(&self, mv: Move) -> (r: i32)
        requires
            self.wf(),
        ensures
            0 <= r <= MAX_HISTORY_SCORE,
    {
        let i = Search::history_index(self.board.side_to_move(), mv.from_square().index(), mv.to_square().index());
        self.history[i] as i32
    }

    fn get_counter_move_bonus(&self, previous_move: Move, mv: Move) -> (r: i32)
        requires
            self.wf(),
        ensures
            0 <= r <= COUNTER_MOVE_BONUS,
    {
        let i = Search::history_index(self.board.side_to_move(), previous_move.from_square().index(), previous_move.to_square().index());
        if self.counter_moves[i] == mv {
            COUNTER_MOVE_BONUS
        } else {
            0
        }
    }

    /// Orders the moves: the table move first, then captures by most valuable victim and
    /// least valuable attacker, then the two killers of this ply, then quiet moves by
    /// history (plus the counter-move bonus).
    fn score_moves(&self, list: &mut MoveList, tt_move: Move, previous_move: Move)
        requires
            self.wf(),
        ensures
            same_moves(old(list)@, final(list)@),
    {
        let ply = self.search_info.ply as usize;
        let k0 = self.killer_moves[2 * ply];
        let k1 = self.killer_moves[2 * ply + 1];
        let mut i: usize = 0;
        let ghost l0 = list@;
        proof {
            assert(same_moves(l0, list@));
        }
        while i < list.length()
            invariant
                self.wf(),
                same_moves(l0, list@),
            decreases list@.len() - i,
        {
            let mv = list.get(i);
            let victim = self.board.get_piece(mv.to_square());
            let score: i32 = if mv == tt_move {
                TT_SCORE_OFFSET
            } else if victim.kind != PieceKind::NoPiece {
                let attacker = self.board.get_piece(mv.from_square());
                CAPTURE_SCORE_OFFSET + 10 * victim.material_value() - attacker.material_value()
            } else if mv == k0 {
                FIRST_KILLER_SCORE
            } else if mv == k1 {
                SECOND_KILLER_SCORE
            } else {
                self.get_history_score(mv) + self.get_counter_move_bonus(previous_move, mv)
            };
            list.set_score(i, score as u32);
            i += 1;
        }
    }

    /// Remembers a quiet move that caused a cutoff at this ply (most recent first, no
    /// duplicate in the first slot).
    fn store_killer_move(&mut self, mv: Move)
        requires
            old(self).wf(),
        ensures
            final(self).wf(),
            final(self).spec_board() == old(self).spec_board(),
            final(self).spec_ply() == old(self).spec_ply(),
            final(self).spec_timer() == old(self).spec_timer(),
            final(self).spec_max_depth() == old(self).spec_max_depth(),
    {
        if mv.kind() == MoveKind::Capture {
            return;
        }
        let ply = self.search_info.ply as usize;
        if mv != self.killer_moves[2 * ply] {
            let first = self.killer_moves[2 * ply];
            self.killer_moves.set(2 * ply + 1, first);
            self.killer_moves.set(2 * ply, mv);
        }
    }

    /// Rewards a quiet cutoff move with `depth * depth`; while its score is above the cap,
    /// halves the whole table.
    fn update_history_score(&mut self, mv: Move, depth: u8)
        requires
            old(self).wf(),
        ensures
            final(self).wf(),
            final(self).spec_board() == old(self).spec_board(),
            final(self).spec_ply() == old(self).spec_ply(),
            final(self).spec_timer() == old(self).spec_timer(),
            final(self).spec_max_depth() == old(self).spec_max_depth(),
    {
        if mv.kind() == MoveKind::Capture {
            return;
        }
        let i = Search::history_index(self.board.side_to_move(), mv.from_square().index(), mv.to_square().index());
        let d = depth as u32;
        proof {
            assert(d * d <= 65025) by (nonlinear_arith)
                requires
                    d <= 255,
            ;
        }
        let v = self.history[i] + d * d;
        self.history.set(i, v);
        while self.history[i] > MAX_HISTORY_SCORE
            invariant
                self.board == old(self).board,
                self.search_info == old(self).search_info,
                self.timer == old(self).timer,
                self.max_depth == old(self).max_depth,
                self.transposition_table == old(self).transposition_table,
                self.killer_moves@.len() == KILLER_SLOTS,
                self.counter_moves@.len() == HISTORY_SLOTS,
                self.history@.len() == HISTORY_SLOTS,
                i < HISTORY_SLOTS,
                forall|k: int| 0 <= k < HISTORY_SLOTS && k != i ==> #[trigger] self.history@[k] <= MAX_HISTORY_SCORE,
            decreases self.history@[i as int],
        {
            let mut k: usize = 0;
            let ghost before = self.history@;
            while k < HISTORY_SLOTS
                invariant
                    self.board == old(self).board,
                    self.search_info == old(self).search_info,
                    self.timer == old(self).timer,
                    self.max_depth == old(self).max_depth,
                    self.transposition_table == old(self).transposition_table,
                    self.killer_moves@.len() == KILLER_SLOTS,
                    self.counter_moves@.len() == HISTORY_SLOTS,
                    self.history@.len() == HISTORY_SLOTS,
                    before.len() == HISTORY_SLOTS,
                    i < HISTORY_SLOTS,
                    before[i as int] > MAX_HISTORY_SCORE,
                    forall|q: int| 0 <= q < k ==> #[trigger] self.history@[q] == before[q] / 2,
                    forall|q: int| k <= q < HISTORY_SLOTS ==> #[trigger] self.history@[q] == before[q],
                    forall|q: int| 0 <= q < HISTORY_SLOTS && q != i ==> #[trigger] before[q] <= MAX_HISTORY_SCORE,
                decreases HISTORY_SLOTS - k,
            {
                let h = self.history[k];
                self.history.set(k, h / 2);
                k += 1;
            }
        }
    }

    /// Remembers `current` as the answer to `previous` for the side to move (quiet moves only).
    fn store_counter_move(&mut self, previous: Move, current: Move)
        requires
            old(self).wf(),
        ensures
            final(self).wf(),
            final(self).spec_board() == old(self).spec_board(),
            final(self).spec_ply() == old(self).spec_ply(),
            final(self).spec_timer() == old(self).spec_timer(),
            final(self).spec_max_depth() == old(self).spec_max_depth(),
    {
        if current.kind() == MoveKind::Capture {
            return;
        }
        let i = Search::history_index(self.board.side_to_move(), previous.from_square().index(), previous.to_square().index());
        self.counter_moves.set(i, current);
    }
}

impl Search {
    /// Counts a node and, every 2048 nodes, lets the timer read the clock.
    fn count_node(&mut self)
        requires
            old(self).wf(),
        ensures
            final(self).wf(),
            final(self).spec_board() == old(self).spec_board(),
            final(self).spec_ply() == old(self).spec_ply(),
            unlimited_running(old(self).spec_timer()) ==> unlimited_running(final(self).spec_timer()),
            settings_kept(old(self), final(self)),
    {
        self.search_info.nodes_searched = self.search_info.nodes_searched.wrapping_add(1);
        if self.search_info.nodes_searched & 2047 == 0 {
            self.timer.check();
        }
    }

    /// Searches captures only until the position is quiet, with a stand-pat cutoff: the
    /// score of the side to move within `[alpha, beta]` (0 once the timer has stopped).
    /// The board is given back as it was.
    fn quiescence_search(&mut self, alpha: i32, beta: i32, pv: &mut Vec<Move>) -> (r: Result<i32, BoardError>)
        requires
            old(self).wf(),
            -INFINITY <= alpha < beta <= INFINITY,
        ensures
            r is Ok,
            final(self).wf() && final(self).spec_board()@ == old(self).spec_board()@
                && final(self).spec_ply() == old(self).spec_ply() && score_ok(r->Ok_0 as int),
            unlimited_running(old(self).spec_timer()) ==> unlimited_running(final(self).spec_timer()),
            settings_kept(old(self), final(self)),
            final(self).spec_board().generator() == old(self).spec_board().generator(),
            final(pv)@ == old(pv)@ || (final(pv)@.len() > 0 && generated_move(old(self).spec_board()@, final(pv)@[0])),
        decreases MAX_PLY - old(self).spec_ply(),
    {
        let ghost v = self.board@;
        self.count_node();
        if self.timer.is_stopped() {
            return Ok(0);
        }
        if self.search_info.ply >= MAX_PLY {
            let e = self.board.evaluate();
            return Ok(if e > INFINITY { INFINITY } else if e < -INFINITY { -INFINITY } else { e });
        }
        let stand_pat = self.board.evaluate();
        if stand_pat >= beta {
            return Ok(beta);
        }
        let mut alpha = if stand_pat > alpha { stand_pat } else { alpha };
        let mut moves = MoveList::new();
        self.board.generate_all_captures(&mut moves);
        proof {
            self.board.lemma_inv();
            assert forall|k: int| 0 <= k < moves@.len() implies generated_move(v, #[trigger] moves@[k]) by {
                assert(moves@.subrange(0, 0) == Seq::<Move>::empty());
            }
        }
        let ghost m0 = moves@;
        self.score_moves(&mut moves, Move::null(), Move::null());
        proof {
            lemma_generated_kept(v, m0, moves@);
        }
        let ply = self.search_info.ply;
        let mut i: usize = 0;
        while i < moves.length()
            invariant
                self.wf(),
                self.board@ == v,
                view_ok(v),
                self.search_info.ply == ply,
                ply == old(self).spec_ply(),
                v == old(self).spec_board()@,
                unlimited_running(old(self).spec_timer()) ==> unlimited_running(self.spec_timer()),
                settings_kept(old(self), self),
                self.spec_board().generator() == old(self).spec_board().generator(),
                pv@ == old(pv)@ || (pv@.len() > 0 && generated_move(v, pv@[0])),
                ply < MAX_PLY,
                -INFINITY <= alpha < beta <= INFINITY,
                forall|k: int| 0 <= k < moves@.len() ==> generated_move(v, #[trigger] moves@[k]),
            decreases moves@.len() - i,
        {
            let ghost before = moves@;
            let mv = moves.pick_ordered_move(i);
            proof {
                lemma_generated_swap(v, before, moves@, i as int);
            }
            let legal = self.board.make_move(mv)?;
            proof {
                lemma_make_unmake(v, mv);
                crate::make_move::lemma_generated_make_ok(v, mv);
            }
            if !legal {
                self.board.unmake_move(mv)?;
                i += 1;
                continue;
            }
            let mut current_pv: Vec<Move> = Vec::new();
            self.search_info.ply = ply + 1;
            let child = self.quiescence_search(-beta, -alpha, &mut current_pv)?;
            let score = -child;
            self.board.unmake_move(mv)?;
            self.search_info.ply = ply;
            if score >= beta {
                return Ok(beta);
            }
            if score > alpha {
                alpha = score;
                pv.clear();
                pv.push(mv);
                pv.append(&mut current_pv);
            }
            i += 1;
        }
        Ok(alpha)
    }
}

fn clamp_score(s: i32) -> (r: i32)
    ensures
        score_ok(r as int),
        score_ok(s as int) ==> r == s,
{
    if s > INFINITY {
        INFINITY
    } else if s < -INFINITY {
        -INFINITY
    } else {
        s
    }
}

impl Search {
    /// What the table knows of the current position: a usable score for this window and
    /// depth, and its best move.
    fn probe_table(&self, depth: u8, alpha: i32, beta: i32) -> (r: (Option<i32>, Move))
        requires
            self.wf(),
        ensures
            r.0 is Some ==> score_ok(r.0->Some_0 as int),
    {
        let hash = self.board.hash();
        let entry = *self.transposition_table.probe(hash);
        if entry.score < -INFINITY - 64 || entry.score > INFINITY + 64 {
            return (None, Move::null());
        }
        let (score, mv) = entry.get(hash, depth, self.search_info.ply, alpha, beta);
        match score {
            Some(s) => (Some(clamp_score(s)), mv),
            None => (None, mv),
        }
    }

    fn store_entry(&mut self, depth: u8, score: i32, flag: SearchEntryFlag, best_move: Move)
        requires
            old(self).wf(),
            score_ok(score as int),
        ensures
            final(self).wf(),
            final(self).spec_board() == old(self).spec_board(),
            final(self).spec_ply() == old(self).spec_ply(),
            final(self).spec_timer() == old(self).spec_timer(),
            final(self).spec_max_depth() == old(self).spec_max_depth(),
    {
        let entry = SearchTableEntry::new(self.board.hash(), depth, score, self.search_info.ply, flag, best_move);
        self.transposition_table.store(entry);
    }

    /// Principal-variation alpha-beta search `depth` plies deep (one more when in check):
    /// the score of the side to move within `[alpha, beta]`, with `pv` set to the best line
    /// found. Mate scores count plies from the root; draws score 0, and so does every node
    /// once the timer has stopped. The board is given back as it was.
    pub fn negamax(&mut self, depth: u8, alpha: i32, beta: i32, pv: &mut Vec<Move>, previous_move: Move) -> (r: Result<i32, BoardError>)
        requires
            old(self).wf(),
            -INFINITY <= alpha < beta <= INFINITY,
        ensures
            r is Ok,
            final(self).wf() && final(self).spec_board()@ == old(self).spec_board()@
                && final(self).spec_ply() == old(self).spec_ply() && score_ok(r->Ok_0 as int),
            unlimited_running(old(self).spec_timer()) ==> unlimited_running(final(self).spec_timer()),
            settings_kept(old(self), final(self)),
            final(self).spec_board().generator() == old(self).spec_board().generator(),
            final(pv)@ == old(pv)@ || (final(pv)@.len() > 0 && generated_move(old(self).spec_board()@, final(pv)@[0])),
            unlimited_running(old(self).spec_timer()) && old(self).spec_ply() == 0 && depth >= 1 && no_legal_move(
                &old(self).spec_board(),
            ) ==> r->Ok_0 == (if spec_in_check(&old(self).spec_board(), old(self).spec_board()@.side) {
                -INFINITY
            } else {
                0
            }),
        decreases MAX_PLY - old(self).spec_ply(),
    {
        let ghost v = self.board@;
        let ghost b0 = self.board;
        let ghost depth0 = depth;
        let ghost stuck = unlimited_running(old(self).spec_timer()) && old(self).spec_ply() == 0 && depth >= 1 && no_legal_move(&b0);
        let mut d = depth;
        if self.board.is_in_check(self.board.side_to_move()) && d < 255 {
            d = d + 1;
        }
        if d == 0 || self.search_info.ply >= MAX_PLY {
            return self.quiescence_search(alpha, beta, pv);
        }
        let (table_score, table_move) = self.probe_table(d, alpha, beta);
        if let Some(score) = table_score {
            if self.search_info.ply != 0 {
                return Ok(score);
            }
        }
        self.count_node();
        if self.timer.is_stopped() {
            return Ok(0);
        }
        if self.search_info.ply != 0 && self.board.is_draw() {
            return Ok(0);
        }
        let mut moves = MoveList::new();
        self.board.generate_all_moves(&mut moves);
        proof {
            self.board.lemma_inv();
            assert forall|k: int| 0 <= k < moves@.len() implies generated_move(v, #[trigger] moves@[k]) by {
                assert(moves@.subrange(0, 0) == Seq::<Move>::empty());
            }
        }
        let ghost m0 = moves@;
        proof {
            assert(self.board == b0);
            assert(crate::move_generator::all_by_rule(&b0, moves@, 0));
        }
        self.score_moves(&mut moves, table_move, previous_move);
        proof {
            lemma_generated_kept(v, m0, moves@);
            lemma_rule_kept(&b0, m0, moves@);
        }
        let ply = self.search_info.ply;
        let old_alpha = alpha;
        let mut alpha = alpha;
        let mut legal_moves: usize = 0;
        let mut best_score = -INFINITY;
        let mut best_move = Move::null();
        let mut pvs_enabled = false;
        let mut i: usize = 0;
        while i < moves.length()
            invariant
                self.wf(),
                self.board@ == v,
                view_ok(v),
                self.search_info.ply == ply,
                ply == old(self).spec_ply(),
                v == old(self).spec_board()@,
                unlimited_running(old(self).spec_timer()) ==> unlimited_running(self.spec_timer()),
                settings_kept(old(self), self),
                self.spec_board().generator() == old(self).spec_board().generator(),
                pv@ == old(pv)@ || (pv@.len() > 0 && generated_move(v, pv@[0])),
                ply < MAX_PLY,
                d >= 1,
                -INFINITY <= old_alpha <= alpha < beta <= INFINITY,
                score_ok(best_score as int),
                legal_moves <= i,
                forall|k: int| 0 <= k < moves@.len() ==> generated_move(v, #[trigger] moves@[k]),
                crate::move_generator::all_by_rule(&b0, moves@, 0),
                self.board.generator() == b0.generator(),
                b0@ == v,
                b0.inv(),
                stuck ==> legal_moves == 0,
                stuck == (unlimited_running(old(self).spec_timer()) && old(self).spec_ply() == 0 && depth0 >= 1 && no_legal_move(&b0)),
                b0 == old(self).spec_board(),
                depth0 == depth,
            decreases moves@.len() - i,
        {
            let ghost before = moves@;
            let mv = moves.pick_ordered_move(i);
            proof {
                lemma_generated_swap(v, before, moves@, i as int);
                lemma_rule_swap(&b0, before, moves@, i as int);
            }
            let legal = self.board.make_move(mv)?;
            proof {
                if stuck {
                    lemma_in_check_view(&self.board, v.side);
                    assert(generated_move(b0@, mv));
                    assert(crate::move_generator::by_rule(&b0, mv));
                    assert(in_check_view(b0.generator(), make_result(b0@, mv), b0@.side));
                    assert(!legal);
                }
            }
            proof {
                lemma_make_unmake(v, mv);
                crate::make_move::lemma_generated_make_ok(v, mv);
            }
            if !legal {
                self.board.unmake_move(mv)?;
                i += 1;
                continue;
            }
            let mut current_pv: Vec<Move> = Vec::new();
            self.search_info.ply = ply + 1;
            legal_moves += 1;
            let score = if pvs_enabled {
                let mut scratch: Vec<Move> = Vec::new();
                let probe = self.negamax(d - 1, -alpha - 1, -alpha, &mut scratch, mv)?;
                let mut s = -probe;
                if s > alpha && s < beta {
                    let full = self.negamax(d - 1, -beta, -alpha, &mut current_pv, mv)?;
                    s = -full;
                }
                s
            } else {
                let full = self.negamax(d - 1, -beta, -alpha, &mut current_pv, mv)?;
                -full
            };
            self.board.unmake_move(mv)?;
            self.search_info.ply = ply;
            if score > best_score {
                best_score = score;
                best_move = mv;
            }
            if score >= beta {
                self.store_entry(d, beta, SearchEntryFlag::Beta, best_move);
                self.store_killer_move(mv);
                self.update_history_score(mv, d);
                self.store_counter_move(previous_move, mv);
                return Ok(beta);
            }
            if score > alpha {
                alpha = score;
                pv.clear();
                pv.push(mv);
                pv.append(&mut current_pv);
                pvs_enabled = true;
            }
            i += 1;
        }
        proof {
            lemma_in_check_view(&self.board, v.side);
            lemma_in_check_view(&b0, v.side);
        }
        if legal_moves == 0 {
            if self.board.is_in_check(self.board.side_to_move()) {
                return Ok(-INFINITY + ply as i32);
            } else {
                return Ok(0);
            }
        }
        let flag = if alpha == old_alpha { SearchEntryFlag::Alpha } else { SearchEntryFlag::Exact };
        self.store_entry(d, alpha, flag, best_move);
        Ok(alpha)
    }

    /// One iteration of the deepening search from the root at `depth`: its score, node
    /// count and principal variation, or `None` when the timer stopped it.
    pub fn search_depth(&mut self, depth: u8) -> (r: Result<Option<IterationInfo>, BoardError>)
        requires
            old(self).wf(),
            old(self).spec_ply() == 0,
        ensures
            r is Ok,
            final(self).wf() && final(self).spec_board()@ == old(self).spec_board()@ && final(self).spec_ply() == 0,
            r->Ok_0 is Some ==> score_ok(r->Ok_0->Some_0.score as int) && r->Ok_0->Some_0.depth == depth,
            r->Ok_0 is Some && r->Ok_0->Some_0.pv@.len() > 0 ==> generated_move(old(self).spec_board()@, r->Ok_0->Some_0.pv@[0]),
            unlimited_running(old(self).spec_timer()) ==> r->Ok_0 is Some && unlimited_running(final(self).spec_timer()),
            settings_kept(old(self), final(self)),
    {
        let mut pv: Vec<Move> = Vec::new();
        let score = self.negamax(depth, -INFINITY, INFINITY, &mut pv, Move::null())?;
        if self.timer.is_stopped() {
            return Ok(None);
        }
        Ok(Some(IterationInfo { depth, score, nodes: self.search_info.nodes_searched, pv }))
    }

    /// Iterative deepening from depth 1 to `max_depth`, stopping early when the timer
    /// stops: the best move of the last completed iteration (the null move if none
    /// completed or it found no move) and every completed iteration.
    pub fn search_position(&mut self) -> (r: Result<(Move, Vec<IterationInfo>), BoardError>)
        requires
            old(self).wf(),
            old(self).spec_ply() == 0,
        ensures
            r is Ok,
            final(self).wf() && final(self).spec_board()@ == old(self).spec_board()@,
            r->Ok_0.1@.len() <= old(self).spec_max_depth(),
            unlimited_running(old(self).spec_timer()) ==> r->Ok_0.1@.len() == old(self).spec_max_depth(),
            r->Ok_0.1@.len() > 0 ==> last_best(r->Ok_0.1@, r->Ok_0.0),
            r->Ok_0.1@.len() == 0 ==> r->Ok_0.0.spec_bits() == 0,
            r->Ok_0.0.spec_bits() == 0 || generated_move(old(self).spec_board()@, r->Ok_0.0),
            settings_kept(old(self), final(self)),
    {
        self.search_info.nodes_searched = 0;
        let max_depth = self.max_depth;
        let mut best_move = Move::null();
        let mut iterations: Vec<IterationInfo> = Vec::new();
        let mut depth: u8 = 1;
        while depth <= max_depth
            invariant
                self.wf(),
                self.spec_ply() == 0,
                self.spec_board()@ == old(self).spec_board()@,
                max_depth == old(self).spec_max_depth(),
                1 <= depth,
                iterations@.len() == depth - 1,
                depth <= max_depth + 1,
                unlimited_running(old(self).spec_timer()) ==> unlimited_running(self.spec_timer()),
                settings_kept(old(self), self),
                iterations@.len() > 0 ==> last_best(iterations@, best_move),
                iterations@.len() == 0 ==> best_move.spec_bits() == 0,
                best_move.spec_bits() == 0 || generated_move(old(self).spec_board()@, best_move),
                settings_kept(old(self), self),
            decreases max_depth + 1 - depth,
        {
            match self.search_depth(depth)? {
                Some(info) => {
                    if info.pv.len() > 0 {
                        best_move = info.pv[0];
                    } else {
                        best_move = Move::null();
                    }
                    iterations.push(info);
                },
                None => {
                    return Ok((best_move, iterations));
                },
            }
            if depth == 255 {
                return Ok((best_move, iterations));
            }
            depth += 1;
        }
        Ok((best_move, iterations))
    }
}

} // verus!

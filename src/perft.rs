use vstd::prelude::*;
use crate::board::{Board, BoardError, view_ok};
use crate::make_move::{lemma_make_unmake, lemma_in_check_view, in_check_view, make_result, no_legal_move};
use crate::move_generator::generated_move;
use crate::moves::MoveList;
use crate::transposition_table::{PerftTableEntry, TableEntry, TranspositionTable};

verus! {

/// The table slot `index` holds a count for this position and depth.
pub open spec fn perft_hit(table: Seq<PerftTableEntry>, index: int, hash: u64, depth: u8) -> bool {
    table[index].depth == depth && table[index].hash == hash
}

/// Counts the leaf nodes of the legal move tree `depth` plies deep, caching subtree counts
/// by position hash and depth. The board is given back as it was.
pub fn perft(board: &mut Board, depth: u8, table: &mut TranspositionTable<PerftTableEntry>) -> (r: Result<u64, BoardError>)
    requires
        old(board).wf(),
        old(table).wf(),
    ensures
        final(table).wf(),
        final(table)@.len() == old(table)@.len(),
        final(board).inv(),
        r is Ok,
        final(board).wf() && final(board)@ == old(board)@,
        final(board).generator() == old(board).generator(),
        depth == 0 ==> r == Ok::<u64, BoardError>(1),
        depth > 0 && perft_hit(old(table)@, old(table).spec_index(old(board)@.hash), old(board)@.hash, depth) ==> r
            == Ok::<u64, BoardError>(old(table)@[old(table).spec_index(old(board)@.hash)].node_count),
        depth > 0 && !perft_hit(old(table)@, old(table).spec_index(old(board)@.hash), old(board)@.hash, depth) ==> final(table)@[old(
            table,
        ).spec_index(old(board)@.hash)] == (PerftTableEntry { hash: old(board)@.hash, node_count: r->Ok_0, depth }),
        depth > 0 && !perft_hit(old(table)@, old(table).spec_index(old(board)@.hash), old(board)@.hash, depth) && no_legal_move(
            old(board),
        ) ==> r == Ok::<u64, BoardError>(0),
    decreases depth,
{
    if depth == 0 {
        return Ok(1);
    }
    let hash = board.hash();
    proof {
        table.lemma_has_slot();
    }
    let entry = *table.probe(hash);
    if entry.depth == depth && entry.hash == hash {
        return Ok(entry.node_count);
    }
    let ghost v = board@;
    let ghost b0 = *board;
    let mut moves = MoveList::new();
    board.generate_all_moves(&mut moves);
    proof {
        board.lemma_inv();
        assert forall|k: int| 0 <= k < moves@.len() implies generated_move(v, #[trigger] moves@[k]) by {
            assert(moves@.subrange(0, 0) == Seq::<crate::moves::Move>::empty());
        }
    }
    let mut nodes: u64 = 0;
    let mut i: usize = 0;
    while i < moves.length()
        invariant
            board.wf(),
            board@ == v,
            view_ok(v),
            depth > 0,
            table.wf(),
            table@.len() == old(table)@.len(),
            forall|k: int| 0 <= k < moves@.len() ==> generated_move(v, #[trigger] moves@[k]),
            crate::move_generator::all_by_rule(&b0, moves@, 0),
            board.generator() == b0.generator(),
            b0@ == v,
            b0.inv(),
            b0 == *old(board),
            no_legal_move(&b0) ==> nodes == 0,
        decreases moves@.len() - i,
    {
        let mv = moves.get(i);
        let legal = board.make_move(mv)?;
        proof {
            if no_legal_move(&b0) {
                lemma_in_check_view(board, v.side);
                assert(crate::move_generator::by_rule(&b0, mv));
                assert(in_check_view(b0.generator(), make_result(b0@, mv), b0@.side));
            }
            lemma_make_unmake(v, mv);
            crate::make_move::lemma_generated_make_ok(v, mv);
        }
        if legal {
            let n = perft(board, depth - 1, table)?;
            nodes = nodes.saturating_add(n);
        }
        board.unmake_move(mv)?;
        i += 1;
    }
    table.store(PerftTableEntry::new(hash, nodes, depth));
    Ok(nodes)
}

} // verus!

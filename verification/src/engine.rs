//! Search for a move: every line is followed to a fixed depth and scored
//! there by material.
use vstd::prelude::*;
use crate::evaluator::{evaluate, evaluate_position};
use crate::game_setup::{
    lemma_legal_successors_recover, move_between, recovers, ChessMove,
};
use crate::move_generator::{multipliers_fit, MoveGenerator};
use crate::rules::{king_hit, legal_successors, successor};
use crate::state::{GameState, Side};

verus! {

/// How deep each successor is searched when a move is chosen.
pub const SEARCH_DEPTH: u32 = 4;

/// The score of a position in which `side` is to move and is mated.
pub open spec fn mate_score(side: Side) -> int {
    side.spec_value() * -100000
}

/// Whether `score` is better than `best` for the side to move: greater
/// for White, smaller for Black.
pub open spec fn better(side: Side, score: int, best: int) -> bool {
    side == Side::White && score > best || side == Side::Black && score < best
}

/// The score of a position searched `depth` plies deep. At depth zero it
/// is the material. A position without legal successors is mate, scored
/// against the side to move whatever the depth, when its king is
/// attacked, and a draw, scored zero, when it is not. Otherwise it is the
/// best of the successors' scores for the side to move.
pub open spec fn search_score(depth: nat, p: GameState) -> int
    decreases depth, 0nat, 0nat,
{
    if depth == 0 {
        evaluate(p)
    } else {
        let next = legal_successors(p);
        if next.len() == 0 {
            if king_hit(p, p.next_to_move) {
                mate_score(p.next_to_move)
            } else {
                0
            }
        } else {
            best_score((depth - 1) as nat, p.next_to_move, next, next.len())
        }
    }
}

/// The best score for `side` among the first `count` positions of
/// `next`, each searched `depth` plies deep. The first score stands until
/// a strictly better one comes.
pub open spec fn best_score(depth: nat, side: Side, next: Seq<GameState>, count: nat) -> int
    decreases depth, 1nat, count,
{
    if count <= 1 {
        search_score(depth, next[0])
    } else {
        let best = best_score(depth, side, next, (count - 1) as nat);
        let score = search_score(depth, next[count - 1]);
        if better(side, score, best) {
            score
        } else {
            best
        }
    }
}

/// The place of the best score for `side` among the first `count`
/// positions of `next`: the first place that holds it.
pub open spec fn best_index(depth: nat, side: Side, next: Seq<GameState>, count: nat) -> int
    decreases count,
{
    if count <= 1 {
        0
    } else {
        let best = best_index(depth, side, next, (count - 1) as nat);
        if better(side, search_score(depth, next[count - 1]), search_score(depth, next[best])) {
            count - 1
        } else {
            best
        }
    }
}

/// The move the search chooses in `p`: none when there is no legal
/// successor, else the move to the successor with the best score for the
/// side to move, each successor searched `depth` plies deep; among equal
/// scores the first.
pub open spec fn chosen_move(depth: nat, p: GameState) -> Option<ChessMove> {
    let next = legal_successors(p);
    if next.len() == 0 {
        None
    } else {
        Some(move_between(p, next[best_index(depth, p.next_to_move, next, next.len())]))
    }
}

/// The move picked by a number: none when there is no legal successor,
/// else the move to the successor whose place is the number's remainder by
/// the count of successors.
pub open spec fn picked_move(p: GameState, pick: u64) -> Option<ChessMove> {
    let next = legal_successors(p);
    if next.len() == 0 {
        None
    } else {
        Some(move_between(p, next[pick as int % next.len() as int]))
    }
}

/// The place that holds the best score is the place of `best_score`.
pub proof fn lemma_best_index_score(depth: nat, side: Side, next: Seq<GameState>, count: nat)
    requires
        1 <= count <= next.len(),
    ensures
        0 <= best_index(depth, side, next, count) < count,
        search_score(depth, next[best_index(depth, side, next, count)]) == best_score(
            depth,
            side,
            next,
            count,
        ),
    decreases count,
{
    if count > 1 {
        lemma_best_index_score(depth, side, next, (count - 1) as nat);
    }
}

/// Whether making the move, if there is one, leads to one of the legal
/// successors of `p`.
pub open spec fn leads_to_successor(p: GameState, chosen: Option<ChessMove>) -> bool {
    match chosen {
        Some(m) => legal_successors(p).contains(successor(p, m.from, m.to, m.promotion)),
        None => true,
    }
}

/// The search chooses no move exactly when the position has no legal
/// successor, and a move it chooses leads to one of the legal successors.
pub proof fn lemma_chosen_move_is_legal(depth: nat, p: GameState)
    requires
        p.wf(),
    ensures
        chosen_move(depth, p) is None <==> legal_successors(p).len() == 0,
        leads_to_successor(p, chosen_move(depth, p)),
{
    let next = legal_successors(p);
    if next.len() > 0 {
        lemma_best_index_score(depth, p.next_to_move, next, next.len());
        lemma_legal_successors_recover(p);
        let i = best_index(depth, p.next_to_move, next, next.len());
        assert(recovers(p, next[i]));
    }
}

/// A move picked by a number leads to one of the legal successors.
pub proof fn lemma_picked_move_is_legal(p: GameState, pick: u64)
    requires
        p.wf(),
    ensures
        picked_move(p, pick) is None <==> legal_successors(p).len() == 0,
        leads_to_successor(p, picked_move(p, pick)),
{
    let next = legal_successors(p);
    if next.len() > 0 {
        lemma_legal_successors_recover(p);
        let i = pick as int % next.len() as int;
        assert(recovers(p, next[i]));
    }
}

/// A searcher that follows every line to a fixed depth.
pub struct ChessEngine {
    move_generator: MoveGenerator,
}

impl ChessEngine {
    /// The engine's move generator.
    pub closed spec fn spec_generator(&self) -> MoveGenerator {
        self.move_generator
    }

    /// An engine with freshly computed attack tables. Its slider lookups
    /// all go through tables exactly when each built-in multiplier serves
    /// its square.
    pub fn new() -> (r: ChessEngine)
        ensures
            r.spec_generator().all_magic() <==> multipliers_fit(),
    {
        ChessEngine { move_generator: MoveGenerator::new() }
    }

    /// The engine's move generator.
    pub fn generator(&self) -> (r: &MoveGenerator)
        ensures
            *r == self.spec_generator(),
    {
        &self.move_generator
    }

    /// Scores `state` by searching `depth` plies deep. `penalty` counts
    /// the plies already played from the root; it does not change the
    /// score.
    pub fn min_max_search(&self, penalty: i32, depth: u32, state: &GameState) -> (r: i32)
        requires
            penalty + depth <= i32::MAX,
        ensures
            r == search_score(depth as nat, *state),
            depth == 0 ==> r == evaluate(*state),
        decreases depth,
    {
        if depth == 0 {
            return evaluate_position(state);
        }
        let mut moves: Vec<GameState> = Vec::new();
        self.move_generator.generate_moves(state, &mut moves);
        assert(moves@ =~= legal_successors(*state));
        if moves.len() == 0 {
            let king_hit = self.move_generator.is_king_hit(state, state.next_to_move);
            return if king_hit {
                state.next_to_move.value() * -100000
            } else {
                0
            };
        }
        let side = state.next_to_move;
        let mut best_score: i32 = self.min_max_search(penalty + 1, depth - 1, &moves[0]);
        let mut idx: usize = 1;
        while idx < moves.len()
            invariant
                1 <= idx <= moves.len(),
                depth > 0,
                penalty + depth <= i32::MAX,
                side == state.next_to_move,
                moves@ == legal_successors(*state),
                best_score == crate::engine::best_score(
                    (depth - 1) as nat,
                    side,
                    moves@,
                    idx as nat,
                ),
            decreases moves.len() - idx,
        {
            let score = self.min_max_search(penalty + 1, depth - 1, &moves[idx]);
            let is_new_best = match side {
                Side::White => score > best_score,
                Side::Black => score < best_score,
            };
            if is_new_best {
                best_score = score;
            }
            idx = idx + 1;
        }
        best_score
    }

    /// Chooses a move for the side to move: none when the position has no
    /// legal successor, else the move to the successor that scores best for
    /// the mover when searched four plies deep.
    pub fn find_best_move(&self, state: &GameState) -> (r: Option<ChessMove>)
        ensures
            r == chosen_move(SEARCH_DEPTH as nat, *state),
            r is None <==> legal_successors(*state).len() == 0,
            state.wf() ==> leads_to_successor(*state, r),
    {
        proof {
            if state.wf() {
                lemma_chosen_move_is_legal(SEARCH_DEPTH as nat, *state);
            }
        }
        let mut moves: Vec<GameState> = Vec::new();
        self.move_generator.generate_moves(state, &mut moves);
        assert(moves@ =~= legal_successors(*state));
        if moves.len() == 0 {
            return None;
        }
        let side = state.next_to_move;
        let mut best_score: i32 = self.min_max_search(0, SEARCH_DEPTH, &moves[0]);
        let mut best_index: usize = 0;
        let mut idx: usize = 1;
        while idx < moves.len()
            invariant
                1 <= idx <= moves.len(),
                side == state.next_to_move,
                moves@ == legal_successors(*state),
                best_index == crate::engine::best_index(
                    SEARCH_DEPTH as nat,
                    side,
                    moves@,
                    idx as nat,
                ),
                0 <= best_index < idx,
                best_score == search_score(SEARCH_DEPTH as nat, moves@[best_index as int]),
            decreases moves.len() - idx,
        {
            let score = self.min_max_search(0, SEARCH_DEPTH, &moves[idx]);
            let is_new_best = match side {
                Side::White => score > best_score,
                Side::Black => score < best_score,
            };
            if is_new_best {
                best_score = score;
                best_index = idx;
            }
            idx = idx + 1;
        }
        Some(state.get_move(&moves[best_index]))
    }

    /// Chooses a move by a number that the caller drew: none when the
    /// position has no legal successor, else the move to the successor at
    /// the place `pick` modulo the number of successors. With `pick` drawn
    /// evenly, each legal move is chosen equally often.
    pub fn find_move_by_pick(&self, state: &GameState, pick: u64) -> (r: Option<ChessMove>)
        ensures
            r == picked_move(*state, pick),
            r is None <==> legal_successors(*state).len() == 0,
            state.wf() ==> leads_to_successor(*state, r),
    {
        proof {
            if state.wf() {
                lemma_picked_move_is_legal(*state, pick);
            }
        }
        let mut moves: Vec<GameState> = Vec::new();
        self.move_generator.generate_moves(state, &mut moves);
        assert(moves@ =~= legal_successors(*state));
        if moves.len() == 0 {
            return None;
        }
        let place = (pick % (moves.len() as u64)) as usize;
        Some(state.get_move(&moves[place]))
    }
}

} // verus!

use vstd::prelude::*;
use crate::board::{GameBoard, covers, is_full, lemma_swap_keeps_full, random_kinds, swap_cells};
use crate::detect::{find_matches, has_match};
use crate::drag::DragState;
use crate::gem::{Cell, GemType};
use crate::scoreboard::{Scoreboard, next_total};
use crate::systems::{
    cascade_round, clear_grid, drop_and_refill, fall_system, handle_drag_swap, match_system,
    matched_count, refill_with, swap_is_due,
};

verus! {

/// How many rounds of clearing one tick performs at most before it stops
/// waiting for the board to settle.
pub const MAX_CASCADE_ROUNDS: usize = 100;

/// One round of the cascade on a board and its cleared count: gravity,
/// refill from `draws`, then the matched cells are counted and emptied.
pub open spec fn cascade_step(
    state: (Seq<Seq<Cell>>, nat),
    draws: Seq<Vec<GemType>>,
    width: int,
    height: int,
) -> (Seq<Seq<Cell>>, nat) {
    let filled = drop_and_refill(state.0, draws, width, height);
    (
        clear_grid(filled, width, height),
        next_total(state.1, matched_count(filled, width, height)),
    )
}

/// The rounds of the cascade run one after the other, round `i` refilling
/// from `rounds[i]`.
pub open spec fn cascade(
    state: (Seq<Seq<Cell>>, nat),
    rounds: Seq<Seq<Vec<GemType>>>,
    width: int,
    height: int,
) -> (Seq<Seq<Cell>>, nat)
    decreases rounds.len(),
{
    if rounds.len() == 0 {
        state
    } else {
        cascade(cascade_step(state, rounds[0], width, height), rounds.drop_first(), width, height)
    }
}

/// Running one more round after `rounds` is one more step of the cascade.
pub proof fn lemma_cascade_push(
    state: (Seq<Seq<Cell>>, nat),
    rounds: Seq<Seq<Vec<GemType>>>,
    draws: Seq<Vec<GemType>>,
    width: int,
    height: int,
)
    ensures
        cascade(state, rounds.push(draws), width, height) == cascade_step(
            cascade(state, rounds, width, height),
            draws,
            width,
            height,
        ),
    decreases rounds.len(),
{
    if rounds.len() == 0 {
        assert(rounds.push(draws).drop_first() =~= Seq::<Seq<Vec<GemType>>>::empty());
        assert(rounds.push(draws)[0] == draws);
        let next = cascade_step(state, draws, width, height);
        assert(cascade(next, Seq::<Seq<Vec<GemType>>>::empty(), width, height) == next);
    } else {
        assert(rounds.push(draws).drop_first() =~= rounds.drop_first().push(draws));
        assert(rounds.push(draws)[0] == rounds[0]);
        lemma_cascade_push(
            cascade_step(state, rounds[0], width, height),
            rounds.drop_first(),
            draws,
            width,
            height,
        );
    }
}

/// How a tick's outcome comes about from the board `after` that the gesture
/// left and the count `total` before the tick: the matches of `after` are
/// counted and cleared, then the cascade runs its rounds, each refilled from
/// its own kinds; where it hit its limit (`capped`) one last gravity and
/// refill from `last` follows.
pub open spec fn cascade_explains(
    after: Seq<Seq<Cell>>,
    total: nat,
    rounds: Seq<Seq<Vec<GemType>>>,
    last: Seq<Vec<GemType>>,
    capped: bool,
    width: int,
    height: int,
    board: Seq<Seq<Cell>>,
    final_total: nat,
) -> bool {
    let start = (
        clear_grid(after, width, height),
        next_total(total, matched_count(after, width, height)),
    );
    let end = cascade(start, rounds, width, height);
    &&& rounds.len() <= MAX_CASCADE_ROUNDS
    &&& forall|i: int| 0 <= i < rounds.len() ==> covers(#[trigger] rounds[i], width, height)
    &&& capped ==> covers(last, width, height)
    &&& final_total == end.1
    &&& board == if capped {
        drop_and_refill(end.0, last, width, height)
    } else {
        end.0
    }
}

/// The whole game state: the board, the gesture in progress, and the score.
#[derive(Debug)]
pub struct GameEngine {
    pub board: GameBoard,
    pub drag: DragState,
    pub scoreboard: Scoreboard,
}

impl GameEngine {
    pub open spec fn wf(&self) -> bool {
        self.board.wf() && self.scoreboard.wf()
    }

    /// The board as the pending gesture leaves it: with its two cells
    /// exchanged where the gesture ends in a legal move, else as it is.
    pub open spec fn after_gesture(&self) -> Seq<Seq<Cell>> {
        if swap_is_due(
            self.drag,
            self.board.spec_width() as int,
            self.board.spec_height() as int,
        ) {
            swap_cells(self.board@, self.drag.start.unwrap(), self.drag.end.unwrap())
        } else {
            self.board@
        }
    }

    /// A new session: a random `width` by `height` board, no gesture, no score.
    pub fn new_random(width: usize, height: usize) -> (e: GameEngine)
        ensures
            e.wf(),
            e.board.spec_width() == width,
            e.board.spec_height() == height,
            is_full(e.board@, width as int, height as int),
            e.drag.is_idle(),
            e.scoreboard.spec_total() == 0,
            e.scoreboard.spec_score() == 0,
    {
        GameEngine {
            board: GameBoard::new_random(width, height),
            drag: DragState::new(),
            scoreboard: Scoreboard::new(),
        }
    }

    /// A session on the given board, with no gesture and no score.
    pub fn with_board(board: GameBoard) -> (e: GameEngine)
        requires
            board.wf(),
        ensures
            e.wf(),
            e.board == board,
            e.drag.is_idle(),
            e.scoreboard.spec_total() == 0,
            e.scoreboard.spec_score() == 0,
    {
        GameEngine { board, drag: DragState::new(), scoreboard: Scoreboard::new() }
    }

    /// One tick: resolves a released gesture, detects and clears matches,
    /// and then drops, refills with random gems and detects again until no
    /// match is left, for at most `MAX_CASCADE_ROUNDS` rounds; past that
    /// limit one last drop and refill leaves the board full. Returns whether
    /// the board settled, that is, holds no match.
    pub fn tick(&mut self) -> (settled: bool)
        requires
            old(self).wf(),
        ensures
            final(self).wf(),
            final(self).board.spec_width() == old(self).board.spec_width(),
            final(self).board.spec_height() == old(self).board.spec_height(),
            old(self).drag.is_dragging ==> final(self).drag == old(self).drag,
            !old(self).drag.is_dragging ==> final(self).drag.is_idle(),
            !has_match(
                old(self).after_gesture(),
                old(self).board.spec_width() as int,
                old(self).board.spec_height() as int,
            ) ==> settled && final(self).board@ == old(self).after_gesture()
                && final(self).scoreboard.spec_total() == old(self).scoreboard.spec_total(),
            final(self).scoreboard.spec_total() >= next_total(
                old(self).scoreboard.spec_total(),
                matched_count(
                    old(self).after_gesture(),
                    old(self).board.spec_width() as int,
                    old(self).board.spec_height() as int,
                ),
            ),
            settled ==> !has_match(
                final(self).board@,
                old(self).board.spec_width() as int,
                old(self).board.spec_height() as int,
            ),
            is_full(
                old(self).board@,
                old(self).board.spec_width() as int,
                old(self).board.spec_height() as int,
            ) || !settled ==> is_full(
                final(self).board@,
                old(self).board.spec_width() as int,
                old(self).board.spec_height() as int,
            ),
            final(self).scoreboard.spec_score() == final(self).scoreboard.spec_total() * 10,
            settled == !has_match(
                final(self).board@,
                old(self).board.spec_width() as int,
                old(self).board.spec_height() as int,
            ),
            has_match(
                old(self).after_gesture(),
                old(self).board.spec_width() as int,
                old(self).board.spec_height() as int,
            ) ==> exists|
                rounds: Seq<Seq<Vec<GemType>>>,
                last: Seq<Vec<GemType>>,
                capped: bool,
            |
                #[trigger] cascade_explains(
                    old(self).after_gesture(),
                    old(self).scoreboard.spec_total(),
                    rounds,
                    last,
                    capped,
                    old(self).board.spec_width() as int,
                    old(self).board.spec_height() as int,
                    final(self).board@,
                    final(self).scoreboard.spec_total(),
                ),
    {
        let ghost w = self.board.spec_width() as int;
        let ghost h = self.board.spec_height() as int;
        let ghost was_full = is_full(self.board@, w, h);
        let ghost total0 = self.scoreboard.spec_total();
        handle_drag_swap(&mut self.board, &mut self.drag);
        let ghost g1 = self.board@;
        proof {
            if was_full && swap_is_due(old(self).drag, w, h) {
                lemma_swap_keeps_full(
                    old(self).board@,
                    w,
                    h,
                    old(self).drag.start.unwrap(),
                    old(self).drag.end.unwrap(),
                );
            }
        }
        let mut cleared = match_system(&mut self.board, &mut self.scoreboard);
        let ghost start = (self.board@, self.scoreboard.spec_total());
        let ghost mut rounds: Seq<Seq<Vec<GemType>>> = Seq::empty();
        let ghost last: Seq<Vec<GemType>> = Seq::empty();
        let mut round: usize = 0;
        while cleared.len() > 0
            invariant
                self.wf(),
                w == self.board.spec_width() == old(self).board.spec_width(),
                h == self.board.spec_height() == old(self).board.spec_height(),
                g1 == old(self).after_gesture(),
                total0 == old(self).scoreboard.spec_total(),
                start == (
                    clear_grid(g1, w, h),
                    next_total(total0, matched_count(g1, w, h)),
                ),
                was_full ==> is_full(g1, w, h),
                old(self).drag.is_dragging ==> self.drag == old(self).drag,
                !old(self).drag.is_dragging ==> self.drag.is_idle(),
                self.scoreboard.spec_total() >= next_total(total0, matched_count(g1, w, h)),
                round <= MAX_CASCADE_ROUNDS,
                rounds.len() == round,
                forall|i: int| 0 <= i < rounds.len() ==> covers(#[trigger] rounds[i], w, h),
                (self.board@, self.scoreboard.spec_total()) == cascade(start, rounds, w, h),
                round > 0 ==> has_match(g1, w, h),
                round == 0 ==> (cleared@.len() == 0 <==> !has_match(g1, w, h)),
                round == 0 && cleared@.len() == 0 ==> self.board@ == g1
                    && self.scoreboard.spec_total() == total0,
                round > 0 && cleared@.len() == 0 ==> is_full(self.board@, w, h),
                cleared@.len() == 0 ==> !has_match(self.board@, w, h),
            decreases MAX_CASCADE_ROUNDS - round,
        {
            let draws = random_kinds(self.board.width(), self.board.height());
            if round == MAX_CASCADE_ROUNDS {
                fall_system(&mut self.board);
                refill_with(&mut self.board, &draws);
                proof {
                    self.scoreboard.lemma_score_tracks_cleared();
                    assert(cascade_explains(
                        g1,
                        total0,
                        rounds,
                        draws@,
                        true,
                        w,
                        h,
                        self.board@,
                        self.scoreboard.spec_total(),
                    ));
                    assert(is_full(self.board@, w, h));
                }
                let rest = find_matches(&self.board);
                return rest.len() == 0;
            }
            cleared = cascade_round(&mut self.board, &mut self.scoreboard, &draws);
            proof {
                lemma_cascade_push(start, rounds, draws@, w, h);
                rounds = rounds.push(draws@);
                assert(rounds[rounds.len() - 1] == draws@);
            }
            round = round + 1;
        }
        proof {
            self.scoreboard.lemma_score_tracks_cleared();
            if has_match(g1, w, h) {
                assert(cascade_explains(
                    g1,
                    total0,
                    rounds,
                    last,
                    false,
                    w,
                    h,
                    self.board@,
                    self.scoreboard.spec_total(),
                ));
            }
        }
        true
    }
}

} // verus!

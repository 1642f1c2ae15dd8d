//! The minimax value of a position, the search that computes it, and the
//! proof that alpha-beta pruning changes neither the value inside the window
//! nor the move that is found.
//!
//! Everything here is a function of a board, the player to move and a depth:
//! what a search returns does not depend on how much of the game tree is
//! held in memory.

use vstd::prelude::*;
use crate::state::CheckBox;
use crate::state::board_score;
use crate::state::empties;
use crate::state::lemma_move_fills_box;
use crate::state::lemma_score_range;
use crate::state::lemma_successor_at;
use crate::state::lemma_successors_len;
use crate::state::marked_box_from;
use crate::state::successors;

verus! {

/// The player with the positive weight looks for the highest value, the
/// other for the lowest.
pub open spec fn maximizing(player: CheckBox) -> bool {
    player.spec_weight() > 0
}

/// The boards that the player to move can reach: its successors, and none
/// once a line is complete.
pub open spec fn moves(board: Seq<CheckBox>, player: CheckBox) -> Seq<Seq<CheckBox>> {
    if board_score(board) != 0 {
        Seq::empty()
    } else {
        successors(board, player)
    }
}

/// The value from which a player starts: any reply is at least as good.
pub open spec fn worst_value(player: CheckBox) -> int {
    if maximizing(player) {
        i8::MIN as int
    } else {
        i8::MAX as int
    }
}

/// Whether value `a` is better than value `b` for `player`.
pub open spec fn strictly_better(player: CheckBox, a: int, b: int) -> bool {
    if maximizing(player) {
        a > b
    } else {
        a < b
    }
}

/// The better of two values for `player`.
pub open spec fn better_of(player: CheckBox, a: int, b: int) -> int {
    if strictly_better(player, b, a) {
        b
    } else {
        a
    }
}

/// The minimax value of a board with `player` to move, looking `depth`
/// plies ahead: the score of the board where the look-ahead ends or no move
/// is left, else the best of the values of the replies.
pub open spec fn minimax_value(board: Seq<CheckBox>, player: CheckBox, depth: nat) -> int
    decreases depth, 0nat, 0nat,
{
    let replies = moves(board, player);
    if depth == 0 || replies.len() == 0 {
        board_score(board)
    } else {
        best_reply_value(replies, player, (depth - 1) as nat, 0)
    }
}

/// The best value for `player` among the replies from number `from` on,
/// each looked at `depth` plies deep with the other player to move.
pub open spec fn best_reply_value(
    replies: Seq<Seq<CheckBox>>,
    player: CheckBox,
    depth: nat,
    from: int,
) -> int
    decreases depth, 1nat, replies.len() - from,
{
    if from < 0 || from >= replies.len() {
        worst_value(player)
    } else {
        better_of(
            player,
            minimax_value(replies[from], player.spec_next_player(), depth),
            best_reply_value(replies, player, depth, from + 1),
        )
    }
}

/// The values of the moves of `player` on `board`, in the order of the
/// moves, when the search looks `depth` plies ahead from `board`.
pub open spec fn reply_values(board: Seq<CheckBox>, player: CheckBox, depth: nat) -> Seq<int> {
    values_of(moves(board, player), player.spec_next_player(), (depth - 1) as nat)
}

/// The minimax values of some boards with `player` to move on each.
pub open spec fn values_of(boards: Seq<Seq<CheckBox>>, player: CheckBox, depth: nat) -> Seq<int> {
    Seq::new(boards.len(), |j: int| minimax_value(boards[j], player, depth))
}

/// Whether number `i` is the first of the best among the first `upto` of
/// `values`: none of them is better, and every earlier one is worse.
pub open spec fn first_best(values: Seq<int>, player: CheckBox, upto: int, i: int) -> bool {
    &&& 0 <= i < upto
    &&& forall|j: int| 0 <= j < upto ==> !strictly_better(player, #[trigger] values[j], values[i])
    &&& forall|j: int| 0 <= j < i ==> strictly_better(player, values[i], #[trigger] values[j])
}

/// Whether move number `i` is the move to make: the first of the moves with
/// the best value for the player to move.
pub open spec fn is_best_move(board: Seq<CheckBox>, player: CheckBox, depth: nat, i: int) -> bool {
    first_best(reply_values(board, player, depth), player, moves(board, player).len() as int, i)
}

/// What a search returns: the value found and the number of nodes visited.
pub struct Outcome {
    /// The value of the node searched.
    pub value: int,
    /// The number of nodes that the search looked at, the node searched
    /// among them.
    pub visited: nat,
}

/// The search of one node: a node at depth zero or without moves has the
/// score of its board, any other the result of the scan of its children.
/// The node itself counts as visited.
pub open spec fn search(
    board: Seq<CheckBox>,
    player: CheckBox,
    depth: nat,
    alpha: int,
    beta: int,
    prune: bool,
) -> Outcome
    decreases depth, 0nat, 0nat,
{
    let replies = moves(board, player);
    if depth == 0 || replies.len() == 0 {
        Outcome { value: board_score(board), visited: 1 }
    } else {
        let found = scan(
            replies,
            player,
            (depth - 1) as nat,
            0,
            worst_value(player),
            alpha,
            beta,
            prune,
        );
        Outcome { value: found.value, visited: found.visited + 1 }
    }
}

/// The scan of the children of a node from number `from` on, with `best`
/// the best value so far. Each child is searched inside the window from
/// `alpha` to `beta`; its value may improve `best`, which then narrows the
/// window for the children after it. With pruning, the scan ends as soon as
/// `best` lies outside the window on the side of the player to move.
pub open spec fn scan(
    replies: Seq<Seq<CheckBox>>,
    player: CheckBox,
    depth: nat,
    from: int,
    best: int,
    alpha: int,
    beta: int,
    prune: bool,
) -> Outcome
    decreases depth, 1nat, replies.len() - from,
{
    if from < 0 || from >= replies.len() {
        Outcome { value: best, visited: 0 }
    } else {
        let child = search(replies[from], player.spec_next_player(), depth, alpha, beta, prune);
        let best = better_of(player, best, child.value);
        if maximizing(player) {
            if best > beta && prune {
                Outcome { value: best, visited: child.visited }
            } else {
                let alpha = if best > alpha {
                    best
                } else {
                    alpha
                };
                let rest = scan(replies, player, depth, from + 1, best, alpha, beta, prune);
                Outcome { value: rest.value, visited: child.visited + rest.visited }
            }
        } else {
            if best < alpha && prune {
                Outcome { value: best, visited: child.visited }
            } else {
                let beta = if best < beta {
                    best
                } else {
                    beta
                };
                let rest = scan(replies, player, depth, from + 1, best, alpha, beta, prune);
                Outcome { value: rest.value, visited: child.visited + rest.visited }
            }
        }
    }
}

/// What the search for a move returns: the number of the move, if there is
/// one, and the number of nodes visited.
pub struct MoveOutcome {
    /// The number of the move found, the moves counted from zero in their
    /// order.
    pub index: Option<int>,
    /// The number of nodes that the search looked at, the root not among
    /// them.
    pub visited: nat,
}

/// The scan of the moves at the root from number `from` on. A move takes
/// the place of `best_move` only if its value is strictly better than
/// `best`; its value then becomes the bound on the side of the player to
/// move for the moves after it.
pub open spec fn root_scan(
    replies: Seq<Seq<CheckBox>>,
    player: CheckBox,
    depth: nat,
    from: int,
    best: int,
    best_move: Option<int>,
    alpha: int,
    beta: int,
    prune: bool,
) -> MoveOutcome
    decreases replies.len() - from,
{
    if from < 0 || from >= replies.len() {
        MoveOutcome { index: best_move, visited: 0 }
    } else {
        let child = search(replies[from], player.spec_next_player(), depth, alpha, beta, prune);
        let rest = if strictly_better(player, child.value, best) {
            root_scan(
                replies,
                player,
                depth,
                from + 1,
                child.value,
                Some(from),
                if maximizing(player) {
                    child.value
                } else {
                    alpha
                },
                if maximizing(player) {
                    beta
                } else {
                    child.value
                },
                prune,
            )
        } else {
            root_scan(replies, player, depth, from + 1, best, best_move, alpha, beta, prune)
        };
        MoveOutcome { index: rest.index, visited: child.visited + rest.visited }
    }
}

/// The search for a move on `board` with `player` to move, looking
/// `max_depth` plies ahead: no move where a line is complete or the depth is
/// zero, else the scan of all moves inside the widest window.
pub open spec fn find_move(
    board: Seq<CheckBox>,
    player: CheckBox,
    max_depth: nat,
    prune: bool,
) -> MoveOutcome {
    if board_score(board) != 0 || max_depth == 0 {
        MoveOutcome { index: None, visited: 0 }
    } else {
        root_scan(
            moves(board, player),
            player,
            (max_depth - 1) as nat,
            0,
            worst_value(player),
            None,
            i8::MIN as int,
            i8::MAX as int,
            prune,
        )
    }
}

/// The number of nodes of the largest game tree below a board with `empty`
/// empty boxes, the board itself counted.
pub open spec fn tree_size(empty: nat) -> nat
    decreases empty,
{
    if empty == 0 {
        1
    } else {
        1 + empty * tree_size((empty - 1) as nat)
    }
}

/// A minimax value is the score of some board: it lies between the two
/// weights.
pub proof fn lemma_value_range(board: Seq<CheckBox>, player: CheckBox, depth: nat)
    ensures
        -10 <= minimax_value(board, player, depth) <= 10,
    decreases depth, 0nat, 0nat,
{
    lemma_score_range(board);
    let replies = moves(board, player);
    if depth != 0 && replies.len() != 0 {
        lemma_best_reply_range(replies, player, (depth - 1) as nat, 0);
    }
}

/// The best value among one or more replies lies between the two weights.
pub proof fn lemma_best_reply_range(
    replies: Seq<Seq<CheckBox>>,
    player: CheckBox,
    depth: nat,
    from: int,
)
    requires
        0 <= from < replies.len(),
    ensures
        -10 <= best_reply_value(replies, player, depth, from) <= 10,
    decreases depth, 1nat, replies.len() - from,
{
    lemma_value_range(replies[from], player.spec_next_player(), depth);
    if from + 1 < replies.len() {
        lemma_best_reply_range(replies, player, depth, from + 1);
    } else {
        assert(best_reply_value(replies, player, depth, from + 1) == worst_value(player));
    }
}

/// The minimax value of a position with moves left is the best of the
/// values of its moves: no move has a better value, and some move has it.
pub proof fn lemma_value_is_best_reply(board: Seq<CheckBox>, player: CheckBox, depth: nat)
    requires
        depth > 0,
        moves(board, player).len() > 0,
    ensures
        forall|j: int|
            0 <= j < moves(board, player).len() ==> !strictly_better(
                player,
                #[trigger] reply_values(board, player, depth)[j],
                minimax_value(board, player, depth),
            ),
        exists|j: int|
            0 <= j < moves(board, player).len() && #[trigger] reply_values(board, player, depth)[j]
                == minimax_value(board, player, depth),
{
    let replies = moves(board, player);
    let values = values_of(replies, player.spec_next_player(), (depth - 1) as nat);
    lemma_best_reply_is_best(replies, player, (depth - 1) as nat, 0);
    let best = choose|j: int|
        0 <= j < replies.len() && #[trigger] values[j] == best_reply_value(
            replies,
            player,
            (depth - 1) as nat,
            0,
        );
    assert(reply_values(board, player, depth)[best] == minimax_value(board, player, depth));
}

/// The best value among the replies from number `from` on is the value of
/// one of them, and none of them has a better one.
proof fn lemma_best_reply_is_best(
    replies: Seq<Seq<CheckBox>>,
    player: CheckBox,
    depth: nat,
    from: int,
)
    requires
        0 <= from < replies.len(),
    ensures
        forall|j: int|
            from <= j < replies.len() ==> !strictly_better(
                player,
                #[trigger] values_of(replies, player.spec_next_player(), depth)[j],
                best_reply_value(replies, player, depth, from),
            ),
        exists|j: int|
            from <= j < replies.len() && #[trigger] values_of(
                replies,
                player.spec_next_player(),
                depth,
            )[j] == best_reply_value(replies, player, depth, from),
    decreases replies.len() - from,
{
    let values = values_of(replies, player.spec_next_player(), depth);
    lemma_value_range(replies[from], player.spec_next_player(), depth);
    if from + 1 < replies.len() {
        lemma_best_reply_is_best(replies, player, depth, from + 1);
        let later = choose|j: int|
            from + 1 <= j < replies.len() && #[trigger] values[j] == best_reply_value(
                replies,
                player,
                depth,
                from + 1,
            );
        if best_reply_value(replies, player, depth, from) == values[from] {
            assert(values[from] == best_reply_value(replies, player, depth, from));
        } else {
            assert(values[later] == best_reply_value(replies, player, depth, from));
        }
    } else {
        assert(best_reply_value(replies, player, depth, from + 1) == worst_value(player));
        assert(values[from] == best_reply_value(replies, player, depth, from));
    }
}

/// The move to make is one move: two moves that are both the first of the
/// best are the same.
pub proof fn lemma_best_move_unique(
    board: Seq<CheckBox>,
    player: CheckBox,
    depth: nat,
    i: int,
    j: int,
)
    requires
        is_best_move(board, player, depth, i),
        is_best_move(board, player, depth, j),
    ensures
        i == j,
{
    let values = reply_values(board, player, depth);
    if i < j {
        assert(strictly_better(player, values[j], values[i]));
    } else if j < i {
        assert(strictly_better(player, values[i], values[j]));
    }
}

/// The move to make has the minimax value of the position.
pub proof fn lemma_best_move_value(board: Seq<CheckBox>, player: CheckBox, depth: nat, i: int)
    requires
        depth > 0,
        is_best_move(board, player, depth, i),
    ensures
        reply_values(board, player, depth)[i] == minimax_value(board, player, depth),
{
    lemma_value_is_best_reply(board, player, depth);
    let values = reply_values(board, player, depth);
    let j = choose|j: int|
        0 <= j < moves(board, player).len() && #[trigger] values[j] == minimax_value(
            board,
            player,
            depth,
        );
    assert(!strictly_better(player, values[j], values[i]));
    assert(!strictly_better(player, values[i], minimax_value(board, player, depth)));
}

/// Without pruning the search returns the minimax value, whatever the
/// window.
pub proof fn lemma_search_without_pruning(
    board: Seq<CheckBox>,
    player: CheckBox,
    depth: nat,
    alpha: int,
    beta: int,
)
    ensures
        search(board, player, depth, alpha, beta, false).value == minimax_value(
            board,
            player,
            depth,
        ),
    decreases depth, 0nat, 0nat,
{
    let replies = moves(board, player);
    if depth != 0 && replies.len() != 0 {
        lemma_scan_without_pruning(
            replies,
            player,
            (depth - 1) as nat,
            0,
            worst_value(player),
            alpha,
            beta,
        );
        lemma_best_reply_range(replies, player, (depth - 1) as nat, 0);
    }
}

/// Without pruning the scan returns the better of `best` and the best
/// value among the children that it looks at.
proof fn lemma_scan_without_pruning(
    replies: Seq<Seq<CheckBox>>,
    player: CheckBox,
    depth: nat,
    from: int,
    best: int,
    alpha: int,
    beta: int,
)
    requires
        0 <= from <= replies.len(),
        i8::MIN <= best <= i8::MAX,
    ensures
        scan(replies, player, depth, from, best, alpha, beta, false).value == better_of(
            player,
            best,
            best_reply_value(replies, player, depth, from),
        ),
    decreases depth, 1nat, replies.len() - from,
{
    if from < replies.len() {
        let next = player.spec_next_player();
        lemma_search_without_pruning(replies[from], next, depth, alpha, beta);
        lemma_value_range(replies[from], next, depth);
        let value = minimax_value(replies[from], next, depth);
        let best2 = better_of(player, best, value);
        if maximizing(player) {
            let alpha2 = if best2 > alpha {
                best2
            } else {
                alpha
            };
            lemma_scan_without_pruning(replies, player, depth, from + 1, best2, alpha2, beta);
        } else {
            let beta2 = if best2 < beta {
                best2
            } else {
                beta
            };
            lemma_scan_without_pruning(replies, player, depth, from + 1, best2, alpha, beta2);
        }
    }
}

/// With pruning the search returns the minimax value where that lies
/// inside the window, the ends included. Where it lies outside, the search
/// returns a value on the same side of the window, between the end of the
/// window and the minimax value.
pub proof fn lemma_search_with_pruning(
    board: Seq<CheckBox>,
    player: CheckBox,
    depth: nat,
    alpha: int,
    beta: int,
)
    requires
        i8::MIN <= alpha <= beta <= i8::MAX,
    ensures
        ({
            let value = minimax_value(board, player, depth);
            let found = search(board, player, depth, alpha, beta, true).value;
            &&& alpha <= value <= beta ==> found == value
            &&& value < alpha ==> value <= found < alpha
            &&& value > beta ==> beta < found <= value
        }),
    decreases depth, 0nat, 0nat,
{
    let replies = moves(board, player);
    if depth != 0 && replies.len() != 0 {
        lemma_best_reply_range(replies, player, (depth - 1) as nat, 0);
        if maximizing(player) {
            lemma_scan_max_with_pruning(
                replies,
                player,
                (depth - 1) as nat,
                0,
                worst_value(player),
                alpha,
                beta,
            );
        } else {
            lemma_scan_min_with_pruning(
                replies,
                player,
                (depth - 1) as nat,
                0,
                worst_value(player),
                alpha,
                beta,
            );
        }
    }
}

/// What the scan with pruning returns for the maximizing player, by where
/// the best value among the children that it looks at lies: above the
/// window, a value above the window and no higher; inside, that value;
/// below, a value below `alpha`, or `best` itself.
proof fn lemma_scan_max_with_pruning(
    replies: Seq<Seq<CheckBox>>,
    player: CheckBox,
    depth: nat,
    from: int,
    best: int,
    alpha: int,
    beta: int,
)
    requires
        maximizing(player),
        0 <= from <= replies.len(),
        i8::MIN <= best <= alpha <= beta <= i8::MAX,
    ensures
        ({
            let value = best_reply_value(replies, player, depth, from);
            let found = scan(replies, player, depth, from, best, alpha, beta, true).value;
            &&& value > beta ==> beta < found <= value
            &&& alpha <= value <= beta ==> found == value
            &&& value < alpha ==> value <= found && best <= found && (found < alpha || found
                == best)
        }),
    decreases depth, 1nat, replies.len() - from,
{
    if from < replies.len() {
        let next = player.spec_next_player();
        lemma_search_with_pruning(replies[from], next, depth, alpha, beta);
        lemma_value_range(replies[from], next, depth);
        let child = search(replies[from], next, depth, alpha, beta, true).value;
        let best2 = better_of(player, best, child);
        if !(best2 > beta) {
            let alpha2 = if best2 > alpha {
                best2
            } else {
                alpha
            };
            lemma_scan_max_with_pruning(replies, player, depth, from + 1, best2, alpha2, beta);
        }
    }
}

/// What the scan with pruning returns for the minimizing player, by where
/// the best value among the children that it looks at lies: below the
/// window, a value below the window and no lower; inside, that value;
/// above, a value above `beta`, or `best` itself.
proof fn lemma_scan_min_with_pruning(
    replies: Seq<Seq<CheckBox>>,
    player: CheckBox,
    depth: nat,
    from: int,
    best: int,
    alpha: int,
    beta: int,
)
    requires
        !maximizing(player),
        0 <= from <= replies.len(),
        i8::MIN <= alpha <= beta <= best <= i8::MAX,
    ensures
        ({
            let value = best_reply_value(replies, player, depth, from);
            let found = scan(replies, player, depth, from, best, alpha, beta, true).value;
            &&& value < alpha ==> value <= found < alpha
            &&& alpha <= value <= beta ==> found == value
            &&& value > beta ==> found <= value && found <= best && (found > beta || found
                == best)
        }),
    decreases depth, 1nat, replies.len() - from,
{
    if from < replies.len() {
        let next = player.spec_next_player();
        lemma_search_with_pruning(replies[from], next, depth, alpha, beta);
        lemma_value_range(replies[from], next, depth);
        let child = search(replies[from], next, depth, alpha, beta, true).value;
        let best2 = better_of(player, best, child);
        if !(best2 < alpha) {
            let beta2 = if best2 < beta {
                best2
            } else {
                beta
            };
            lemma_scan_min_with_pruning(replies, player, depth, from + 1, best2, alpha, beta2);
        }
    }
}

/// A search with pruning visits no more nodes than a search without,
/// whatever the two windows.
pub proof fn lemma_pruning_visits_fewer(
    board: Seq<CheckBox>,
    player: CheckBox,
    depth: nat,
    alpha: int,
    beta: int,
    plain_alpha: int,
    plain_beta: int,
)
    ensures
        search(board, player, depth, alpha, beta, true).visited <= search(
            board,
            player,
            depth,
            plain_alpha,
            plain_beta,
            false,
        ).visited,
    decreases depth, 0nat, 0nat,
{
    let replies = moves(board, player);
    if depth != 0 && replies.len() != 0 {
        lemma_scan_visits_fewer(
            replies,
            player,
            (depth - 1) as nat,
            0,
            worst_value(player),
            alpha,
            beta,
            worst_value(player),
            plain_alpha,
            plain_beta,
        );
    }
}

/// A scan with pruning visits no more nodes than a scan without, whatever
/// the two windows and the best values so far.
proof fn lemma_scan_visits_fewer(
    replies: Seq<Seq<CheckBox>>,
    player: CheckBox,
    depth: nat,
    from: int,
    best: int,
    alpha: int,
    beta: int,
    plain_best: int,
    plain_alpha: int,
    plain_beta: int,
)
    requires
        0 <= from <= replies.len(),
    ensures
        scan(replies, player, depth, from, best, alpha, beta, true).visited <= scan(
            replies,
            player,
            depth,
            from,
            plain_best,
            plain_alpha,
            plain_beta,
            false,
        ).visited,
    decreases depth, 1nat, replies.len() - from,
{
    if from < replies.len() {
        let next = player.spec_next_player();
        lemma_pruning_visits_fewer(
            replies[from],
            next,
            depth,
            alpha,
            beta,
            plain_alpha,
            plain_beta,
        );
        let child = search(replies[from], next, depth, alpha, beta, true).value;
        let plain_child = search(replies[from], next, depth, plain_alpha, plain_beta, false).value;
        let best2 = better_of(player, best, child);
        let plain_best2 = better_of(player, plain_best, plain_child);
        if maximizing(player) {
            let alpha2 = if best2 > alpha {
                best2
            } else {
                alpha
            };
            let plain_alpha2 = if plain_best2 > plain_alpha {
                plain_best2
            } else {
                plain_alpha
            };
            lemma_scan_visits_fewer(
                replies,
                player,
                depth,
                from + 1,
                best2,
                alpha2,
                beta,
                plain_best2,
                plain_alpha2,
                plain_beta,
            );
        } else {
            let beta2 = if best2 < beta {
                best2
            } else {
                beta
            };
            let plain_beta2 = if plain_best2 < plain_beta {
                plain_best2
            } else {
                plain_beta
            };
            lemma_scan_visits_fewer(
                replies,
                player,
                depth,
                from + 1,
                best2,
                alpha,
                beta2,
                plain_best2,
                plain_alpha,
                plain_beta2,
            );
        }
    }
}

/// Whether the bound on the side of the player to move is the best value
/// so far and the other bound is as wide as it can be: what holds of the
/// window throughout the scan at the root.
pub open spec fn root_window(player: CheckBox, best: int, alpha: int, beta: int) -> bool {
    if maximizing(player) {
        alpha == best && beta == i8::MAX
    } else {
        beta == best && alpha == i8::MIN
    }
}

/// From the same best value and move so far, the scan at the root finds
/// the same move with pruning as without, and visits no more nodes.
proof fn lemma_root_scan_pruning(
    replies: Seq<Seq<CheckBox>>,
    player: CheckBox,
    depth: nat,
    from: int,
    best: int,
    best_move: Option<int>,
    alpha: int,
    beta: int,
    plain_alpha: int,
    plain_beta: int,
)
    requires
        0 <= from <= replies.len(),
        i8::MIN <= best <= i8::MAX,
        root_window(player, best, alpha, beta),
    ensures
        root_scan(replies, player, depth, from, best, best_move, alpha, beta, true).index
            == root_scan(
            replies,
            player,
            depth,
            from,
            best,
            best_move,
            plain_alpha,
            plain_beta,
            false,
        ).index,
        root_scan(replies, player, depth, from, best, best_move, alpha, beta, true).visited
            <= root_scan(
            replies,
            player,
            depth,
            from,
            best,
            best_move,
            plain_alpha,
            plain_beta,
            false,
        ).visited,
    decreases replies.len() - from,
{
    if from < replies.len() {
        let next = player.spec_next_player();
        lemma_search_with_pruning(replies[from], next, depth, alpha, beta);
        lemma_search_without_pruning(replies[from], next, depth, plain_alpha, plain_beta);
        lemma_pruning_visits_fewer(
            replies[from],
            next,
            depth,
            alpha,
            beta,
            plain_alpha,
            plain_beta,
        );
        lemma_value_range(replies[from], next, depth);
        let value = minimax_value(replies[from], next, depth);
        let child = search(replies[from], next, depth, alpha, beta, true).value;
        assert(strictly_better(player, child, best) == strictly_better(player, value, best));
        if strictly_better(player, value, best) {
            assert(child == value);
            lemma_root_scan_pruning(
                replies,
                player,
                depth,
                from + 1,
                value,
                Some(from),
                if maximizing(player) {
                    value
                } else {
                    alpha
                },
                if maximizing(player) {
                    beta
                } else {
                    value
                },
                if maximizing(player) {
                    value
                } else {
                    plain_alpha
                },
                if maximizing(player) {
                    plain_beta
                } else {
                    value
                },
            );
        } else {
            lemma_root_scan_pruning(
                replies,
                player,
                depth,
                from + 1,
                best,
                best_move,
                alpha,
                beta,
                plain_alpha,
                plain_beta,
            );
        }
    }
}

/// Pruning is sound: on every board, for every player and depth, the search
/// with pruning finds the same move as the search without, and visits no
/// more nodes.
pub proof fn lemma_pruning_keeps_move(board: Seq<CheckBox>, player: CheckBox, max_depth: nat)
    ensures
        find_move(board, player, max_depth, true).index == find_move(
            board,
            player,
            max_depth,
            false,
        ).index,
        find_move(board, player, max_depth, true).visited <= find_move(
            board,
            player,
            max_depth,
            false,
        ).visited,
{
    if board_score(board) == 0 && max_depth != 0 {
        lemma_root_scan_pruning(
            moves(board, player),
            player,
            (max_depth - 1) as nat,
            0,
            worst_value(player),
            None,
            i8::MIN as int,
            i8::MAX as int,
            i8::MIN as int,
            i8::MAX as int,
        );
    }
}

/// Where the move so far is the first of the best among the moves before
/// number `from`, the scan at the root without pruning ends with the first
/// of the best among all moves.
proof fn lemma_root_scan_finds_best(
    replies: Seq<Seq<CheckBox>>,
    player: CheckBox,
    depth: nat,
    from: int,
    best: int,
    best_move: Option<int>,
    alpha: int,
    beta: int,
)
    requires
        0 <= from <= replies.len(),
        match best_move {
            Some(i) => first_best(
                values_of(replies, player.spec_next_player(), depth),
                player,
                from,
                i,
            ) && best == values_of(replies, player.spec_next_player(), depth)[i],
            None => from == 0 && best == worst_value(player),
        },
    ensures
        match root_scan(
            replies,
            player,
            depth,
            from,
            best,
            best_move,
            alpha,
            beta,
            false,
        ).index {
            Some(i) => first_best(
                values_of(replies, player.spec_next_player(), depth),
                player,
                replies.len() as int,
                i,
            ),
            None => replies.len() == 0,
        },
    decreases replies.len() - from,
{
    if from < replies.len() {
        let next = player.spec_next_player();
        let values = values_of(replies, next, depth);
        lemma_search_without_pruning(replies[from], next, depth, alpha, beta);
        lemma_value_range(replies[from], next, depth);
        let value = minimax_value(replies[from], next, depth);
        assert(values[from] == value);
        if strictly_better(player, value, best) {
            assert(first_best(values, player, from + 1, from)) by {
                assert forall|j: int| 0 <= j < from + 1 implies !strictly_better(
                    player,
                    #[trigger] values[j],
                    values[from],
                ) by {
                    if j < from {
                        assert(!strictly_better(player, values[j], best));
                    }
                }
                assert forall|j: int| 0 <= j < from implies strictly_better(
                    player,
                    values[from],
                    #[trigger] values[j],
                ) by {
                    assert(!strictly_better(player, values[j], best));
                }
            }
            lemma_root_scan_finds_best(
                replies,
                player,
                depth,
                from + 1,
                value,
                Some(from),
                if maximizing(player) {
                    value
                } else {
                    alpha
                },
                if maximizing(player) {
                    beta
                } else {
                    value
                },
            );
        } else {
            assert(best_move is Some);
            assert(first_best(values, player, from + 1, best_move->0));
            lemma_root_scan_finds_best(
                replies,
                player,
                depth,
                from + 1,
                best,
                best_move,
                alpha,
                beta,
            );
        }
    }
}

/// The search finds the best move: with or without pruning it returns the
/// first of the moves with the best minimax value, and no move exactly
/// where a line is complete, the depth is zero or no box is empty.
pub proof fn lemma_found_move_is_best(
    board: Seq<CheckBox>,
    player: CheckBox,
    max_depth: nat,
    prune: bool,
)
    ensures
        match find_move(board, player, max_depth, prune).index {
            Some(i) => max_depth > 0 && is_best_move(board, player, max_depth, i),
            None => max_depth == 0 || moves(board, player).len() == 0,
        },
{
    lemma_pruning_keeps_move(board, player, max_depth);
    if board_score(board) == 0 && max_depth != 0 {
        lemma_root_scan_finds_best(
            moves(board, player),
            player,
            (max_depth - 1) as nat,
            0,
            worst_value(player),
            None,
            i8::MIN as int,
            i8::MAX as int,
        );
    }
}

/// On a board with a complete line there is no move to find, whatever the
/// depth, and the search visits nothing.
pub proof fn lemma_no_move_when_decided(
    board: Seq<CheckBox>,
    player: CheckBox,
    max_depth: nat,
    prune: bool,
)
    requires
        board_score(board) != 0,
    ensures
        find_move(board, player, max_depth, prune).index is None,
        find_move(board, player, max_depth, prune).visited == 0,
        moves(board, player).len() == 0,
{
}

/// The sizes of the largest game trees, by the number of empty boxes.
pub proof fn lemma_tree_sizes()
    ensures
        tree_size(0) == 1,
        tree_size(1) == 2,
        tree_size(2) == 5,
        tree_size(3) == 16,
        tree_size(4) == 65,
        tree_size(5) == 326,
        tree_size(6) == 1957,
        tree_size(7) == 13700,
        tree_size(8) == 109601,
        tree_size(9) == 986410,
{
    reveal_with_fuel(tree_size, 11);
}

/// Every reply to a board with nine boxes has nine boxes and one empty box
/// less than the board.
pub proof fn lemma_moves_fill_boxes(board: Seq<CheckBox>, player: CheckBox)
    requires
        board.len() == 9,
        player != CheckBox::Empty,
    ensures
        moves(board, player).len() <= empties(board) <= 9,
        forall|j: int|
            0 <= j < moves(board, player).len() ==> (#[trigger] moves(board, player)[j]).len() == 9
                && empties(moves(board, player)[j]) == empties(board) - 1,
{
    lemma_successors_len(board, player, 0);
    assert forall|j: int| 0 <= j < moves(board, player).len() implies (#[trigger] moves(
        board,
        player,
    )[j]).len() == 9 && empties(moves(board, player)[j]) == empties(board) - 1 by {
        lemma_successor_at(board, player, 0, j);
        lemma_move_fills_box(board, player, marked_box_from(board, 0, j), 0);
    }
}

/// A search visits no more nodes than the largest game tree below its board
/// has.
pub proof fn lemma_search_visits_bounded(
    board: Seq<CheckBox>,
    player: CheckBox,
    depth: nat,
    alpha: int,
    beta: int,
    prune: bool,
)
    requires
        board.len() == 9,
        player != CheckBox::Empty,
    ensures
        search(board, player, depth, alpha, beta, prune).visited <= tree_size(empties(board)),
    decreases depth, 0nat, 0nat,
{
    let replies = moves(board, player);
    if depth != 0 && replies.len() != 0 {
        lemma_moves_fill_boxes(board, player);
        let below = (empties(board) - 1) as nat;
        lemma_scan_visits_bounded(
            replies,
            player,
            (depth - 1) as nat,
            0,
            worst_value(player),
            alpha,
            beta,
            prune,
            below,
        );
        assert(replies.len() * tree_size(below) <= empties(board) * tree_size(below))
            by (nonlinear_arith)
            requires
                replies.len() <= empties(board),
        ;
    }
}

/// A scan visits no more nodes than the largest game trees below the
/// children that it looks at have together.
proof fn lemma_scan_visits_bounded(
    replies: Seq<Seq<CheckBox>>,
    player: CheckBox,
    depth: nat,
    from: int,
    best: int,
    alpha: int,
    beta: int,
    prune: bool,
    below: nat,
)
    requires
        player != CheckBox::Empty,
        0 <= from <= replies.len(),
        forall|j: int|
            0 <= j < replies.len() ==> (#[trigger] replies[j]).len() == 9 && empties(replies[j])
                == below,
    ensures
        scan(replies, player, depth, from, best, alpha, beta, prune).visited <= (replies.len()
            - from) * tree_size(below),
    decreases depth, 1nat, replies.len() - from,
{
    if from < replies.len() {
        let next = player.spec_next_player();
        lemma_search_visits_bounded(replies[from], next, depth, alpha, beta, prune);
        let child = search(replies[from], next, depth, alpha, beta, prune);
        let best2 = better_of(player, best, child.value);
        let alpha2 = if maximizing(player) && best2 > alpha {
            best2
        } else {
            alpha
        };
        let beta2 = if !maximizing(player) && best2 < beta {
            best2
        } else {
            beta
        };
        lemma_scan_visits_bounded(
            replies,
            player,
            depth,
            from + 1,
            best2,
            alpha2,
            beta2,
            prune,
            below,
        );
        assert((replies.len() - from) * tree_size(below) == tree_size(below) + (replies.len() - (
        from + 1)) * tree_size(below)) by (nonlinear_arith);
        assert(0 <= (replies.len() - (from + 1)) * tree_size(below)) by (nonlinear_arith)
            requires
                from + 1 <= replies.len(),
        ;
    }
}

/// A scan at the root visits no more nodes than the largest game trees
/// below the moves that it looks at have together.
proof fn lemma_root_scan_visits_bounded(
    replies: Seq<Seq<CheckBox>>,
    player: CheckBox,
    depth: nat,
    from: int,
    best: int,
    best_move: Option<int>,
    alpha: int,
    beta: int,
    prune: bool,
    below: nat,
)
    requires
        player != CheckBox::Empty,
        0 <= from <= replies.len(),
        forall|j: int|
            0 <= j < replies.len() ==> (#[trigger] replies[j]).len() == 9 && empties(replies[j])
                == below,
    ensures
        root_scan(replies, player, depth, from, best, best_move, alpha, beta, prune).visited <= (
        replies.len() - from) * tree_size(below),
    decreases replies.len() - from,
{
    if from < replies.len() {
        let next = player.spec_next_player();
        lemma_search_visits_bounded(replies[from], next, depth, alpha, beta, prune);
        let child = search(replies[from], next, depth, alpha, beta, prune);
        if strictly_better(player, child.value, best) {
            lemma_root_scan_visits_bounded(
                replies,
                player,
                depth,
                from + 1,
                child.value,
                Some(from),
                if maximizing(player) {
                    child.value
                } else {
                    alpha
                },
                if maximizing(player) {
                    beta
                } else {
                    child.value
                },
                prune,
                below,
            );
        } else {
            lemma_root_scan_visits_bounded(
                replies,
                player,
                depth,
                from + 1,
                best,
                best_move,
                alpha,
                beta,
                prune,
                below,
            );
        }
        assert((replies.len() - from) * tree_size(below) == tree_size(below) + (replies.len() - (
        from + 1)) * tree_size(below)) by (nonlinear_arith);
    }
}

/// The search for a move visits fewer nodes than the game tree below the
/// empty board has.
pub proof fn lemma_find_move_visits_bounded(
    board: Seq<CheckBox>,
    player: CheckBox,
    max_depth: nat,
    prune: bool,
)
    requires
        board.len() == 9,
        player != CheckBox::Empty,
    ensures
        find_move(board, player, max_depth, prune).visited < tree_size(empties(board)),
        tree_size(empties(board)) <= 986410,
{
    lemma_tree_sizes();
    lemma_moves_fill_boxes(board, player);
    if board_score(board) == 0 && max_depth != 0 && moves(board, player).len() > 0 {
        let replies = moves(board, player);
        let below = (empties(board) - 1) as nat;
        lemma_root_scan_visits_bounded(
            replies,
            player,
            (max_depth - 1) as nat,
            0,
            worst_value(player),
            None,
            i8::MIN as int,
            i8::MAX as int,
            prune,
            below,
        );
        assert(replies.len() * tree_size(below) <= empties(board) * tree_size(below))
            by (nonlinear_arith)
            requires
                replies.len() <= empties(board),
        ;
    }
}

} // verus!

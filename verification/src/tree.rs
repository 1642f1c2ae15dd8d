//! The game tree as a mathematical value: what the search tree holds in
//! memory, and how it may grow.

use vstd::prelude::*;
use crate::search::lemma_moves_fill_boxes;
use crate::search::MoveOutcome;
use crate::search::Outcome;
use crate::search::better_of;
use crate::search::find_move;
use crate::search::maximizing;
use crate::search::moves;
use crate::search::search;
use crate::search::strictly_better;
use crate::search::worst_value;
use crate::state::CheckBox;
use crate::state::State;
use crate::state::board_score;
use crate::state::empties;
use crate::state::successor_index;
use crate::text::integer_text;
use crate::text::spaces;

verus! {

/// A node of the game tree: a board, the player to move on it, and its
/// children once they have been computed.
pub struct GameTree {
    /// The nine boxes of the board in row-major order.
    pub board: Seq<CheckBox>,
    /// The player that has to move.
    pub player: CheckBox,
    /// The children of the node, or `None` while they have not been
    /// computed.
    pub children: Option<Seq<GameTree>>,
}

impl GameTree {
    /// A node whose children have not been computed.
    pub open spec fn leaf(board: Seq<CheckBox>, player: CheckBox) -> GameTree {
        GameTree { board: board, player: player, children: None }
    }

    /// The children that a node gets when they are computed: one leaf for
    /// each move, with the other player to move.
    pub open spec fn fresh_children(board: Seq<CheckBox>, player: CheckBox) -> Seq<GameTree> {
        let replies = moves(board, player);
        Seq::new(replies.len(), |i: int| Self::leaf(replies[i], player.spec_next_player()))
    }

    /// Whether the tree is one of a game: every board has nine boxes, a
    /// player is to move on it, and where children have been computed they
    /// are the moves of that player, in their order, with the other player
    /// to move.
    pub open spec fn wf(self) -> bool
        decreases self,
    {
        &&& self.board.len() == 9
        &&& self.player != CheckBox::Empty
        &&& match self.children {
            None => true,
            Some(children) => {
                &&& children.len() == moves(self.board, self.player).len()
                &&& forall|i: int|
                    0 <= i < children.len() ==> {
                        &&& (#[trigger] children[i]).board == moves(self.board, self.player)[i]
                        &&& children[i].player == self.player.spec_next_player()
                        &&& children[i].wf()
                    }
            },
        }
    }

    /// Whether `other` is this tree with more of it computed: the same
    /// board and player, and every child that is here is there too and has
    /// grown in the same way.
    pub open spec fn grows_to(self, other: GameTree) -> bool
        decreases self,
    {
        &&& self.board == other.board
        &&& self.player == other.player
        &&& match self.children {
            None => true,
            Some(children) => {
                &&& other.children is Some
                &&& other.children->0.len() == children.len()
                &&& forall|i: int|
                    0 <= i < children.len() ==> (#[trigger] children[i]).grows_to(
                        other.children->0[i],
                    )
            },
        }
    }

    /// The tree with the children of its root computed, if they were not.
    pub open spec fn ensured(self) -> GameTree {
        match self.children {
            Some(_) => self,
            None => GameTree {
                board: self.board,
                player: self.player,
                children: Some(Self::fresh_children(self.board, self.player)),
            },
        }
    }

    /// The tree below move number `i` of the root, as far as it is held:
    /// a leaf if the children of the root had not been computed.
    pub open spec fn after_reply(self, i: int) -> GameTree {
        self.ensured().children->0[i]
    }

    /// The tree below the move that marks box `cell`.
    pub open spec fn after_move(self, cell: int) -> GameTree {
        self.after_reply(successor_index(self.board, cell))
    }

    /// The tree with every node less than `depth` plies below the root
    /// given its children.
    pub open spec fn expanded(self, depth: nat) -> GameTree
        decreases depth,
    {
        if depth == 0 {
            self
        } else {
            let children = self.ensured().children->0;
            GameTree {
                board: self.board,
                player: self.player,
                children: Some(
                    Seq::new(children.len(), |i: int| children[i].expanded((depth - 1) as nat)),
                ),
            }
        }
    }

    /// What a search of this tree `depth` plies deep inside the window
    /// from `alpha` to `beta` returns.
    pub open spec fn outcome(self, depth: nat, alpha: int, beta: int, prune: bool) -> Outcome {
        search(self.board, self.player, depth, alpha, beta, prune)
    }

    /// What the search for a move on this tree `max_depth` plies deep
    /// returns.
    pub open spec fn found_move(self, max_depth: nat, prune: bool) -> MoveOutcome {
        find_move(self.board, self.player, max_depth, prune)
    }

    /// The tree after a search of `depth` plies inside the window from
    /// `alpha` to `beta`: at depth zero the tree as it is, else the tree with
    /// the children of its root computed and scanned.
    pub open spec fn searched(self, depth: nat, alpha: int, beta: int, prune: bool) -> GameTree
        decreases depth, 0nat, 0nat,
    {
        if depth == 0 {
            self
        } else {
            GameTree {
                board: self.board,
                player: self.player,
                children: Some(
                    Self::scanned(
                        self.ensured().children->0,
                        self.player,
                        (depth - 1) as nat,
                        0,
                        worst_value(self.player),
                        alpha,
                        beta,
                        prune,
                    ),
                ),
            }
        }
    }

    /// The children of a node after the scan from number `from` on, with
    /// `best` the best value so far: each child that the scan reaches has
    /// been searched, with the window as the scan had it then; the
    /// children after a cut are as they were.
    pub open spec fn scanned(
        children: Seq<GameTree>,
        player: CheckBox,
        depth: nat,
        from: int,
        best: int,
        alpha: int,
        beta: int,
        prune: bool,
    ) -> Seq<GameTree>
        decreases depth, 1nat, children.len() - from,
    {
        if from < 0 || from >= children.len() {
            children
        } else {
            let child = children[from];
            let found = search(child.board, child.player, depth, alpha, beta, prune);
            let grown = children.update(from, child.searched(depth, alpha, beta, prune));
            let best = better_of(player, best, found.value);
            if maximizing(player) {
                if best > beta && prune {
                    grown
                } else {
                    let alpha = if best > alpha {
                        best
                    } else {
                        alpha
                    };
                    Self::scanned(grown, player, depth, from + 1, best, alpha, beta, prune)
                }
            } else {
                if best < alpha && prune {
                    grown
                } else {
                    let beta = if best < beta {
                        best
                    } else {
                        beta
                    };
                    Self::scanned(grown, player, depth, from + 1, best, alpha, beta, prune)
                }
            }
        }
    }

    /// The tree after the search for a move `max_depth` plies deep: as it
    /// is where a line is complete or the depth is zero, else with the
    /// children of its root computed and every one of them searched.
    pub open spec fn move_searched(self, max_depth: nat, prune: bool) -> GameTree {
        if board_score(self.board) != 0 || max_depth == 0 {
            self
        } else {
            GameTree {
                board: self.board,
                player: self.player,
                children: Some(
                    Self::root_scanned(
                        self.ensured().children->0,
                        self.player,
                        (max_depth - 1) as nat,
                        0,
                        worst_value(self.player),
                        i8::MIN as int,
                        i8::MAX as int,
                        prune,
                    ),
                ),
            }
        }
    }

    /// The tree after the reply that the search with pruning finds
    /// `max_depth` plies deep: the tree below the move found, or the tree
    /// as the search left it where there is no move.
    pub open spec fn replied(self, max_depth: nat) -> GameTree {
        match self.found_move(max_depth, true).index {
            Some(i) => self.move_searched(max_depth, true).after_reply(i),
            None => self.move_searched(max_depth, true),
        }
    }

    /// The children of the root after the scan for a move from number
    /// `from` on, with `best` the best value so far: every child has been
    /// searched, with the window as the scan had it then.
    pub open spec fn root_scanned(
        children: Seq<GameTree>,
        player: CheckBox,
        depth: nat,
        from: int,
        best: int,
        alpha: int,
        beta: int,
        prune: bool,
    ) -> Seq<GameTree>
        decreases children.len() - from,
    {
        if from < 0 || from >= children.len() {
            children
        } else {
            let child = children[from];
            let found = search(child.board, child.player, depth, alpha, beta, prune);
            let grown = children.update(from, child.searched(depth, alpha, beta, prune));
            if strictly_better(player, found.value, best) {
                Self::root_scanned(
                    grown,
                    player,
                    depth,
                    from + 1,
                    found.value,
                    if maximizing(player) {
                        found.value
                    } else {
                        alpha
                    },
                    if maximizing(player) {
                        beta
                    } else {
                        found.value
                    },
                    prune,
                )
            } else {
                Self::root_scanned(grown, player, depth, from + 1, best, alpha, beta, prune)
            }
        }
    }

    /// The depth of the deepest node that is held, the root being at depth
    /// zero.
    pub open spec fn depth(self) -> nat
        decreases self,
    {
        match self.children {
            None => 0,
            Some(children) => Self::deepest(children, 0),
        }
    }

    /// The depth of the deepest node below a parent of `children`, counting
    /// from the parent and looking at the children from number `from` on;
    /// zero if there are none.
    pub open spec fn deepest(children: Seq<GameTree>, from: int) -> nat
        decreases children, children.len() - from,
    {
        if 0 <= from < children.len() {
            let first = 1 + children[from].depth();
            let others = Self::deepest(children, from + 1);
            if first > others {
                first
            } else {
                others
            }
        } else {
            0
        }
    }

    /// The line of a dump that gives the score of a board.
    pub open spec fn score_text(board: Seq<CheckBox>, indent: nat) -> Seq<char> {
        spaces(indent) + "score: "@ + integer_text(board_score(board))
            + seq!['\n']
    }

    /// The text of a dump: the board and its score, then the dumps of the
    /// children that are held, each one space further in.
    pub open spec fn text(self, indent: nat) -> Seq<char>
        decreases self,
    {
        State::board_text(self.board, indent) + Self::score_text(self.board, indent)
            + match self.children {
            None => Seq::empty(),
            Some(children) => Self::texts(children, indent + 1, 0),
        }
    }

    /// The dumps of `children` from number `from` on, one after the other.
    pub open spec fn texts(children: Seq<GameTree>, indent: nat, from: int) -> Seq<char>
        decreases children, children.len() - from,
    {
        if 0 <= from < children.len() {
            children[from].text(indent) + Self::texts(children, indent, from + 1)
        } else {
            Seq::empty()
        }
    }

    /// A leaf with a board of nine boxes and a player to move is well formed.
    pub proof fn lemma_leaf_wf(board: Seq<CheckBox>, player: CheckBox)
        requires
            board.len() == 9,
            player != CheckBox::Empty,
        ensures
            Self::leaf(board, player).wf(),
    {
    }

    /// Computing the children of the root keeps a tree well formed and
    /// makes it grow.
    pub proof fn lemma_ensured(self)
        requires
            self.wf(),
        ensures
            self.ensured().wf(),
            self.grows_to(self.ensured()),
            self.ensured().children is Some,
            self.ensured().children->0.len() == moves(self.board, self.player).len(),
    {
        self.lemma_grows_to_self();
        if self.children is None {
            lemma_moves_fill_boxes(self.board, self.player);
            let children = Self::fresh_children(self.board, self.player);
            assert forall|i: int| 0 <= i < children.len() implies (#[trigger] children[i]).wf() by {
                Self::lemma_leaf_wf(moves(self.board, self.player)[i], self.player.spec_next_player());
            }
        }
    }

    /// Every tree grows to itself.
    pub proof fn lemma_grows_to_self(self)
        ensures
            self.grows_to(self),
        decreases self,
    {
        match self.children {
            None => {},
            Some(children) => {
                assert forall|i: int| 0 <= i < children.len() implies (#[trigger] children[i]).grows_to(
                    children[i],
                ) by {
                    children[i].lemma_grows_to_self();
                }
            },
        }
    }

    /// Growth goes on: where a tree grows to a second and that to a third,
    /// the first grows to the third.
    pub proof fn lemma_grows_on(self, second: GameTree, third: GameTree)
        requires
            self.grows_to(second),
            second.grows_to(third),
        ensures
            self.grows_to(third),
        decreases self,
    {
        match self.children {
            None => {},
            Some(children) => {
                assert forall|i: int| 0 <= i < children.len() implies (#[trigger] children[i]).grows_to(
                    third.children->0[i],
                ) by {
                    children[i].lemma_grows_on(second.children->0[i], third.children->0[i]);
                }
            },
        }
    }

    /// Expanding a well-formed tree keeps it well formed and makes it grow.
    pub proof fn lemma_expanded(self, depth: nat)
        requires
            self.wf(),
        ensures
            self.expanded(depth).wf(),
            self.grows_to(self.expanded(depth)),
        decreases depth,
    {
        self.lemma_grows_to_self();
        if depth > 0 {
            self.lemma_ensured();
            let children = self.ensured().children->0;
            let deeper = self.expanded(depth).children->0;
            assert forall|i: int| 0 <= i < children.len() implies (#[trigger] deeper[i]).wf()
                && deeper[i].board == children[i].board && deeper[i].player == children[i].player
                && children[i].grows_to(deeper[i]) by {
                children[i].lemma_expanded((depth - 1) as nat);
            }
            self.lemma_grows_on(self.ensured(), self.expanded(depth));
        }
    }

    /// Expanding twice to the same depth is expanding once: the second
    /// expansion changes nothing, and so leaves the depth as it is.
    pub proof fn lemma_expanded_twice(self, depth: nat)
        ensures
            self.expanded(depth).expanded(depth) == self.expanded(depth),
            self.expanded(depth).expanded(depth).depth() == self.expanded(depth).depth(),
        decreases depth,
    {
        if depth > 0 {
            let children = self.ensured().children->0;
            let once = self.expanded(depth);
            let twice = once.expanded(depth);
            assert forall|i: int| 0 <= i < children.len() implies twice.children->0[i]
                == once.children->0[i] by {
                children[i].lemma_expanded_twice((depth - 1) as nat);
            }
            assert(twice.children->0 =~= once.children->0);
        }
    }

    /// A well-formed tree is no deeper than its board has empty boxes.
    pub proof fn lemma_depth_bounded(self)
        requires
            self.wf(),
        ensures
            self.depth() <= empties(self.board) <= 9,
        decreases self,
    {
        lemma_moves_fill_boxes(self.board, self.player);
        match self.children {
            None => {},
            Some(children) => {
                Self::lemma_deepest_bounded(children, 0, (empties(self.board) - 1) as nat);
            },
        }
    }

    /// Below a parent whose children have `below` empty boxes each, no
    /// node lies deeper than `below + 1`.
    pub proof fn lemma_deepest_bounded(children: Seq<GameTree>, from: int, below: nat)
        requires
            0 <= from <= children.len(),
            forall|i: int|
                0 <= i < children.len() ==> (#[trigger] children[i]).wf() && empties(
                    children[i].board,
                ) == below,
        ensures
            Self::deepest(children, from) <= below + 1,
            from == children.len() ==> Self::deepest(children, from) == 0,
        decreases children, children.len() - from,
    {
        if from < children.len() {
            children[from].lemma_depth_bounded();
            Self::lemma_deepest_bounded(children, from + 1, below);
        }
    }

    /// Every child lies less deep below its parent than the deepest.
    pub proof fn lemma_child_depth(children: Seq<GameTree>, from: int, i: int)
        requires
            0 <= from <= i < children.len(),
        ensures
            children[i].depth() < Self::deepest(children, from),
        decreases i - from,
    {
        if from < i {
            Self::lemma_child_depth(children, from + 1, i);
        }
    }
}

} // verus!

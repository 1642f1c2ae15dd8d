//! An implementation of the minimax algorithm on a lazily expanded game
//! tree.

use vstd::prelude::*;
use vstd::string::StringExecFns;
use crate::search::find_move;
use crate::search::is_best_move;
use crate::search::lemma_find_move_visits_bounded;
use crate::search::lemma_found_move_is_best;
use crate::search::moves;
use crate::search::Outcome;
use crate::search::root_scan;
use crate::search::scan;
use crate::search::search;
use crate::search::worst_value;
use crate::state::CheckBox;
use crate::state::State;
use crate::state::board_score;
use crate::state::lemma_successor_at;
use crate::state::lemma_successor_of_box;
use crate::state::lemma_successors_len;
use crate::state::successor_index;
use crate::state::successors;
use crate::text::push_integer;
use crate::text::push_spaces;
use crate::tree::GameTree;

verus! {

/// A node of the search tree. Its view is the game tree below it, as far as
/// it is held.
#[derive(Debug)]
pub struct MiniMaxNode {
    /// The state this node represents.
    state: State,
    /// The player that has to move.
    player: CheckBox,
    /// The children of the node. This will be `None` when they haven't been
    /// computed yet.
    children: Option<Vec<MiniMaxNode>>,
}

impl View for MiniMaxNode {
    type V = GameTree;

    closed spec fn view(&self) -> GameTree {
        self.tree()
    }
}

/// The game trees below some nodes.
spec fn views(nodes: Seq<MiniMaxNode>) -> Seq<GameTree> {
    Seq::new(nodes.len(), |i: int| nodes[i]@)
}

/// The game tree of a node with the given parts.
spec fn tree_of(state: State, player: CheckBox, children: Option<Vec<MiniMaxNode>>) -> GameTree {
    GameTree {
        board: state@,
        player: player,
        children: match children {
            None => None,
            Some(nodes) => Some(views(nodes@)),
        },
    }
}

/// The number of a move as an integer.
spec fn index_of(best_move: Option<usize>) -> Option<int> {
    match best_move {
        Some(i) => Some(i as int),
        None => None,
    }
}

/// Whether `nodes` are the children of a well-formed node with `board` and
/// `player`, each grown from its place in `start`.
spec fn grown_children(
    nodes: Seq<MiniMaxNode>,
    board: Seq<CheckBox>,
    player: CheckBox,
    start: Seq<GameTree>,
) -> bool {
    &&& nodes.len() == moves(board, player).len()
    &&& nodes.len() == start.len()
    &&& forall|j: int|
        0 <= j < nodes.len() ==> {
            &&& (#[trigger] nodes[j])@.wf()
            &&& nodes[j]@.board == moves(board, player)[j]
            &&& nodes[j]@.player == player.spec_next_player()
            &&& start[j].grows_to(nodes[j]@)
        }
}

impl MiniMaxNode {
    /// The game tree below this node, as far as it is held.
    spec fn tree(self) -> GameTree
        decreases self,
    {
        GameTree {
            board: self.state@,
            player: self.player,
            children: match self.children {
                None => None,
                Some(nodes) => Some(Self::trees(nodes@, 0)),
            },
        }
    }

    /// The game trees below `nodes` from number `from` on.
    spec fn trees(nodes: Seq<MiniMaxNode>, from: int) -> Seq<GameTree>
        decreases nodes, nodes.len() - from,
    {
        if 0 <= from < nodes.len() {
            seq![nodes[from].tree()] + Self::trees(nodes, from + 1)
        } else {
            Seq::empty()
        }
    }

    /// The game trees below `nodes` from number `from` on are the views of
    /// these nodes.
    proof fn lemma_trees(nodes: Seq<MiniMaxNode>, from: int)
        requires
            0 <= from <= nodes.len(),
        ensures
            Self::trees(nodes, from) == views(nodes).subrange(from, nodes.len() as int),
        decreases nodes.len() - from,
    {
        if from < nodes.len() {
            Self::lemma_trees(nodes, from + 1);
        }
    }

    /// The view of a node is the game tree of its parts.
    proof fn lemma_view(&self)
        ensures
            self@ == tree_of(self.state, self.player, self.children),
    {
        match self.children {
            None => {},
            Some(nodes) => {
                Self::lemma_trees(nodes@, 0);
                assert(views(nodes@).subrange(0, nodes@.len() as int) =~= views(nodes@));
            },
        }
    }

    /// What holds of a node that was given `nodes` as its children, where
    /// these have grown from the children `start` of a well-formed tree.
    proof fn lemma_regrown(
        state: State,
        player: CheckBox,
        nodes: Vec<MiniMaxNode>,
        tree: GameTree,
        start: Seq<GameTree>,
    )
        requires
            tree.wf(),
            tree.board == state@,
            tree.player == player,
            tree.ensured().children == Some(start),
            grown_children(nodes@, state@, player, start),
        ensures
            tree_of(state, player, Some(nodes)).wf(),
            tree.grows_to(tree_of(state, player, Some(nodes))),
    {
        let grown = tree_of(state, player, Some(nodes));
        tree.lemma_ensured();
        tree.lemma_grows_on(tree.ensured(), grown);
    }

    /// What holds of the children of a node when its children have just
    /// been ensured: they are the children of a well-formed tree, each
    /// grown from itself.
    proof fn lemma_start(tree: GameTree, nodes: Seq<MiniMaxNode>)
        requires
            tree.wf(),
            tree.ensured().children == Some(views(nodes)),
        ensures
            grown_children(nodes, tree.board, tree.player, views(nodes)),
    {
        tree.lemma_ensured();
        let start = views(nodes);
        assert forall|j: int| 0 <= j < nodes.len() implies {
            &&& (#[trigger] nodes[j])@.wf()
            &&& nodes[j]@.board == moves(tree.board, tree.player)[j]
            &&& nodes[j]@.player == tree.player.spec_next_player()
            &&& start[j].grows_to(nodes[j]@)
        } by {
            start[j].lemma_grows_to_self();
        }
    }

    /// A node for `state` with `player` to move, its children not computed.
    pub fn new(state: State, player: CheckBox) -> (node: MiniMaxNode)
        ensures
            node@ == GameTree::leaf(state@, player),
    {
        MiniMaxNode { state: state, player: player, children: None }
    }

    /// Gets a copy of this state, "taking" the computed subtree.
    fn take(&mut self) -> (taken: MiniMaxNode)
        ensures
            taken@ == old(self)@,
            final(self)@ == GameTree::leaf(old(self)@.board, old(self)@.player),
    {
        proof {
            self.lemma_view();
        }
        let taken = MiniMaxNode {
            state: self.state,
            player: self.player,
            children: self.children.take(),
        };
        proof {
            self.lemma_view();
            taken.lemma_view();
        }
        taken
    }

    /// Searches the tree below this node `max_depth` plies deep inside the
    /// window from `alpha` to `beta` and returns the value found. Every
    /// node visited is counted in `nodes_visited`, and gets its children
    /// unless it lies at the full depth.
    pub fn minimax(
        &mut self,
        max_depth: usize,
        alpha: i8,
        beta: i8,
        prune: bool,
        nodes_visited: &mut usize,
    ) -> (value: i8)
        requires
            old(self)@.wf(),
            *old(nodes_visited) + old(self)@.outcome(
                max_depth as nat,
                alpha as int,
                beta as int,
                prune,
            ).visited <= usize::MAX,
        ensures
            value == old(self)@.outcome(
                max_depth as nat,
                alpha as int,
                beta as int,
                prune,
            ).value,
            *final(nodes_visited) == *old(nodes_visited) + old(self)@.outcome(
                max_depth as nat,
                alpha as int,
                beta as int,
                prune,
            ).visited,
            final(self)@ == old(self)@.searched(
                max_depth as nat,
                alpha as int,
                beta as int,
                prune,
            ),
            final(self)@.wf(),
            old(self)@.grows_to(final(self)@),
        decreases max_depth,
    {
        let ghost tree = self@;
        let ghost replies = moves(tree.board, tree.player);
        let ghost below = (max_depth - 1) as nat;
        let ghost total = scan(
            replies,
            tree.player,
            below,
            0,
            worst_value(tree.player),
            alpha as int,
            beta as int,
            prune,
        );
        proof {
            self.lemma_view();
            tree.lemma_grows_to_self();
            tree.lemma_ensured();
        }
        *nodes_visited += 1;

        if max_depth == 0 {
            return self.score();
        }
        self.ensure_children();
        proof {
            self.lemma_view();
        }
        let mut children = self.children.take().unwrap();
        let ghost start = views(children@);
        let ghost goal = GameTree::scanned(
            start,
            tree.player,
            below,
            0,
            worst_value(tree.player),
            alpha as int,
            beta as int,
            prune,
        );
        proof {
            MiniMaxNode::lemma_start(tree, children@);
        }
        if children.is_empty() {
            proof {
                Self::lemma_regrown(self.state, self.player, children, tree, start);
            }
            self.children = Some(children);
            proof {
                self.lemma_view();
            }
            return self.state.score();
        }
        let maximizing = self.player.weight() > 0;

        let mut best: i8 = if maximizing {
            i8::MIN
        } else {
            i8::MAX
        };
        let mut low = alpha;
        let mut high = beta;
        let mut i: usize = 0;
        while i < children.len()
            invariant
                i <= children.len(),
                max_depth > 0,
                below == max_depth - 1,
                maximizing == crate::search::maximizing(tree.player),
                self.state@ == tree.board,
                self.player == tree.player,
                tree == old(self)@,
                tree.wf(),
                search(
                    tree.board,
                    tree.player,
                    max_depth as nat,
                    alpha as int,
                    beta as int,
                    prune,
                ) == (Outcome { value: total.value, visited: total.visited + 1 }),
                tree.ensured().children == Some(start),
                tree.searched(max_depth as nat, alpha as int, beta as int, prune).children == Some(
                    goal,
                ),
                goal == GameTree::scanned(
                    views(children@),
                    tree.player,
                    below,
                    i as int,
                    best as int,
                    low as int,
                    high as int,
                    prune,
                ),
                grown_children(children@, tree.board, tree.player, start),
                replies == moves(tree.board, tree.player),
                *nodes_visited >= *old(nodes_visited) + 1,
                total.value == scan(
                    replies,
                    tree.player,
                    below,
                    i as int,
                    best as int,
                    low as int,
                    high as int,
                    prune,
                ).value,
                *old(nodes_visited) + 1 + total.visited == *nodes_visited + scan(
                    replies,
                    tree.player,
                    below,
                    i as int,
                    best as int,
                    low as int,
                    high as int,
                    prune,
                ).visited,
                *old(nodes_visited) + 1 + total.visited <= usize::MAX,
            decreases children.len() - i,
        {
            let ghost before = children@;
            let val = children[i].minimax(max_depth - 1, low, high, prune, nodes_visited);
            proof {
                assert(views(children@) =~= views(before).update(
                    i as int,
                    before[i as int]@.searched(below, low as int, high as int, prune),
                ));
                assert forall|j: int| 0 <= j < children@.len() implies {
                    &&& (#[trigger] children@[j])@.wf()
                    &&& children@[j]@.board == replies[j]
                    &&& children@[j]@.player == tree.player.spec_next_player()
                    &&& start[j].grows_to(children@[j]@)
                } by {
                    if j == i {
                        start[j].lemma_grows_on(before[j]@, children@[j]@);
                    }
                }
            }

            if maximizing {
                if val > best {
                    best = val;
                }
            } else {
                if val < best {
                    best = val;
                }
            }

            if maximizing {
                if best > high && prune {
                    proof {
                        Self::lemma_regrown(self.state, self.player, children, tree, start);
                    }
                    self.children = Some(children);
                    proof {
                        self.lemma_view();
                    }
                    return best;
                }
                if best > low {
                    low = best;
                }
            } else {
                if best < low && prune {
                    proof {
                        Self::lemma_regrown(self.state, self.player, children, tree, start);
                    }
                    self.children = Some(children);
                    proof {
                        self.lemma_view();
                    }
                    return best;
                }
                if best < high {
                    high = best;
                }
            }
            i += 1;
        }
        proof {
            Self::lemma_regrown(self.state, self.player, children, tree, start);
        }
        self.children = Some(children);
        proof {
            self.lemma_view();
        }
        best
    }

    /// Ensures to have computed the children states for this state.
    fn ensure_children(&mut self)
        requires
            old(self)@.wf(),
        ensures
            final(self)@ == old(self)@.ensured(),
            final(self).children is Some,
            final(self).state == old(self).state,
            final(self).player == old(self).player,
    {
        proof {
            self.lemma_view();
        }
        if self.children.is_none() {
            let mut children: Vec<MiniMaxNode> = Vec::new();
            // A decided game has no moves left, so just prune here.
            if self.score() == 0 {
                let next = self.player.next_player();
                let ghost all = successors(self.state@, self.player);
                let mut states = self.state.subsequent_states(self.player);
                let mut item = states.next();
                while item.is_some()
                    invariant
                        children@.len() <= all.len(),
                        forall|j: int|
                            0 <= j < children@.len() ==> (#[trigger] children@[j])@
                                == GameTree::leaf(all[j], next),
                        match item {
                            Some(s) => children@.len() < all.len() && s@ == all[children@.len() as int]
                                && states@ == all.subrange(
                                children@.len() as int + 1,
                                all.len() as int,
                            ),
                            None => children@.len() == all.len(),
                        },
                    decreases all.len() - children@.len(),
                {
                    let s = item.unwrap();
                    children.push(MiniMaxNode::new(s, next));
                    item = states.next();
                }
                proof {
                    assert(views(children@) =~= GameTree::fresh_children(
                        self.state@,
                        self.player,
                    ));
                }
            } else {
                proof {
                    assert(views(children@) =~= GameTree::fresh_children(
                        self.state@,
                        self.player,
                    ));
                }
            }
            self.children = Some(children);
            proof {
                self.lemma_view();
            }
        }
    }

    /// The score of the board of this node.
    fn score(&self) -> (score: i8)
        ensures
            score == board_score(self@.board),
    {
        self.state.score()
    }

    /// Gives every node less than `depth` plies below this one its
    /// children.
    pub fn update_to_depth(&mut self, depth: usize)
        requires
            old(self)@.wf(),
        ensures
            final(self)@ == old(self)@.expanded(depth as nat),
            final(self)@.wf(),
        decreases depth,
    {
        let ghost tree = self@;
        proof {
            tree.lemma_expanded(depth as nat);
            tree.lemma_ensured();
        }
        if depth == 0 {
            return ;
        }
        self.ensure_children();
        proof {
            self.lemma_view();
        }
        let mut children = self.children.take().unwrap();
        let ghost start = views(children@);
        let mut i: usize = 0;
        while i < children.len()
            invariant
                i <= children.len(),
                depth > 0,
                children@.len() == start.len(),
                forall|j: int| 0 <= j < start.len() ==> (#[trigger] start[j]).wf(),
                forall|j: int|
                    0 <= j < i ==> (#[trigger] children@[j])@ == start[j].expanded(
                        (depth - 1) as nat,
                    ),
                forall|j: int| i <= j < children@.len() ==> (#[trigger] children@[j])@ == start[j],
            decreases children.len() - i,
        {
            children[i].update_to_depth(depth - 1);
            i += 1;
        }
        proof {
            assert(tree_of(self.state, self.player, Some(children)).children->0
                =~= tree.expanded(depth as nat).children->0);
        }
        self.children = Some(children);
        proof {
            self.lemma_view();
        }
    }

    /// The depth of the deepest node held below this one.
    pub fn depth(&self) -> (depth: usize)
        requires
            self@.wf(),
        ensures
            depth == self@.depth(),
        decreases self@.depth(),
    {
        proof {
            self.lemma_view();
            self@.lemma_depth_bounded();
        }
        let mut deepest: usize = 0;
        match &self.children {
            None => {},
            Some(children) => {
                let ghost trees = views(children@);
                let mut i: usize = children.len();
                while i > 0
                    invariant
                        i <= children.len(),
                        trees == views(children@),
                        self@.children == Some(trees),
                        self@.wf(),
                        deepest == GameTree::deepest(trees, i as int),
                        GameTree::deepest(trees, 0) <= 9,
                    decreases i,
                {
                    i -= 1;
                    proof {
                        GameTree::lemma_child_depth(trees, 0, i as int);
                    }
                    let below = children[i].depth();
                    if below + 1 > deepest {
                        deepest = below + 1;
                    }
                }
            },
        }
        deepest
    }

    /// Writes the board and the score of this node to `dest` after
    /// `indent` spaces, then the dumps of its children, one space further
    /// in.
    pub fn dump(&self, indent: usize, dest: &mut String)
        requires
            indent + self@.depth() <= usize::MAX,
        ensures
            final(dest)@ == old(dest)@ + self@.text(indent as nat),
        decreases self@.depth(),
    {
        proof {
            self.lemma_view();
        }
        self.state.dump(indent, dest);
        push_spaces(dest, indent);
        dest.append("score: ");
        push_integer(dest, self.score());
        dest.push('\n');
        let ghost head = old(dest)@ + State::board_text(self@.board, indent as nat)
            + GameTree::score_text(self@.board, indent as nat);

        match &self.children {
            None => {},
            Some(children) => {
                let ghost trees = views(children@);
                let mut i: usize = 0;
                while i < children.len()
                    invariant
                        i <= children.len(),
                        trees == views(children@),
                        indent + GameTree::deepest(trees, 0) <= usize::MAX,
                        GameTree::deepest(trees, 0) == self@.depth(),
                        dest@ + GameTree::texts(trees, (indent + 1) as nat, i as int) == head
                            + GameTree::texts(trees, (indent + 1) as nat, 0),
                    decreases children.len() - i,
                {
                    proof {
                        GameTree::lemma_child_depth(trees, 0, i as int);
                    }
                    children[i].dump(indent + 1, dest);
                    i += 1;
                }
            },
        }
    }
}

/// The depth of the search where none is asked for.
pub const DEFAULT_DEPTH: usize = 4;

/// The depth of the search for a depth that was asked for, or for none:
/// what was asked for, but one ply at least, and `DEFAULT_DEPTH` where
/// nothing was.
pub open spec fn spec_search_depth(requested: Option<usize>) -> usize {
    match requested {
        Some(depth) => if depth < 1 {
            1
        } else {
            depth
        },
        None => DEFAULT_DEPTH,
    }
}

/// Returns the depth of the search for a depth that was asked for, or for
/// none.
pub fn search_depth(requested: Option<usize>) -> (depth: usize)
    ensures
        depth == spec_search_depth(requested),
        depth >= 1,
{
    match requested {
        Some(depth) => if depth < 1 {
            1
        } else {
            depth
        },
        None => DEFAULT_DEPTH,
    }
}

/// The search tree of a game: the node of the position now in play, with as
/// much of the game tree below it as has been computed. Its view is that
/// game tree.
#[derive(Debug)]
pub struct MiniMaxTree {
    current_state: MiniMaxNode,
}

impl View for MiniMaxTree {
    type V = GameTree;

    closed spec fn view(&self) -> GameTree {
        self.current_state@
    }
}

impl MiniMaxTree {
    /// Whether the tree is one of a game.
    pub open spec fn wf(&self) -> bool {
        self@.wf()
    }

    /// The tree of a new game, in which `player` moves first.
    pub fn new(player: CheckBox) -> (tree: MiniMaxTree)
        requires
            player != CheckBox::Empty,
        ensures
            tree@ == GameTree::leaf(Seq::new(9, |k: int| CheckBox::Empty), player),
            tree.wf(),
    {
        let tree = MiniMaxTree {
            current_state: MiniMaxNode { state: State::initial(), player: player, children: None },
        };
        proof {
            tree.current_state.lemma_view();
        }
        tree
    }

    /// Writes the position now in play and all that is held of the game
    /// tree below it to `dest`.
    pub fn dump(&self, dest: &mut String)
        requires
            self.wf(),
        ensures
            final(dest)@ == old(dest)@ + self@.text(0),
    {
        proof {
            self@.lemma_depth_bounded();
        }
        self.current_state.dump(0, dest)
    }

    /// Returns the current state of the game.
    pub fn state(&self) -> (state: &State)
        ensures
            state@ == self@.board,
    {
        proof {
            self.current_state.lemma_view();
        }
        &self.current_state.state
    }

    /// Marks the box at (x, y) for the player to move.
    ///
    /// Returns an error, and changes nothing, if the box was not empty or
    /// the game is decided.
    pub fn choose_square(&mut self, x: usize, y: usize) -> (res: Result<(), ()>)
        requires
            old(self).wf(),
            x < 3,
            y < 3,
        ensures
            res is Err <==> old(self)@.board[3 * x + y] != CheckBox::Empty || board_score(
                old(self)@.board,
            ) != 0,
            res is Err ==> final(self)@ == old(self)@,
            res is Ok ==> final(self)@ == old(self)@.after_move(3 * x + y),
            res is Ok ==> final(self)@.board == old(self)@.board.update(
                3 * x + y,
                old(self)@.player,
            ),
            res is Ok ==> final(self)@.player == old(self)@.player.spec_next_player(),
            final(self).wf(),
    {
        let ghost tree = self@;
        let ghost cell = 3 * x + y;
        proof {
            self.current_state.lemma_view();
        }
        if self.current_state.state.get(x, y) != CheckBox::Empty || self.current_state.score()
            != 0 {
            return Err(());
        }
        let current_player = self.current_state.player;
        let mut current_state = self.current_state.take();
        current_state.ensure_children();
        proof {
            current_state.lemma_view();
            tree.lemma_ensured();
            lemma_successor_of_box(tree.board, tree.player, cell);
        }
        let mut children = current_state.children.take().unwrap();
        let ghost target = successor_index(tree.board, cell);
        let ghost trees = views(children@);

        let mut index: usize = 0;
        while children[index].state.get(x, y) != current_player
            invariant
                0 <= index <= target < children.len(),
                x < 3,
                y < 3,
                cell == 3 * x + y,
                tree.wf(),
                tree.board[cell] == CheckBox::Empty,
                board_score(tree.board) == 0,
                current_player == tree.player,
                children@.len() == successors(tree.board, tree.player).len(),
                trees == views(children@),
                tree.ensured().children == Some(trees),
                tree.ensured().wf(),
                successors(tree.board, tree.player)[target] == tree.board.update(
                    cell,
                    tree.player,
                ),
            decreases target - index,
        {
            proof {
                children@[index as int].lemma_view();
                assert(trees[index as int].board == successors(tree.board, tree.player)[index as int]);
            }
            index += 1;
        }
        proof {
            children@[index as int].lemma_view();
            lemma_successors_len(tree.board, tree.player, 0);
            lemma_successor_at(tree.board, tree.player, 0, index as int);
            assert(trees[index as int].board == successors(tree.board, tree.player)[index as int]);
        }
        let new_state = children[index].take();
        self.current_state = new_state;

        Ok(())
    }

    /// Makes move number `index` of the player to move, the moves counted
    /// from zero in their order.
    pub fn choose_with_index(&mut self, index: usize)
        requires
            old(self).wf(),
            index < moves(old(self)@.board, old(self)@.player).len(),
        ensures
            final(self)@ == old(self)@.after_reply(index as int),
            final(self).wf(),
    {
        let ghost tree = self@;
        let mut current_state = self.current_state.take();
        current_state.ensure_children();
        proof {
            current_state.lemma_view();
            tree.lemma_ensured();
        }
        let mut children = current_state.children.take().unwrap();
        let new_state = children[index].take();
        self.current_state = new_state;
    }

    /// Finds a min/max move index for the next round.
    ///
    /// Returns the number of the first of the moves with the best minimax
    /// value for the player to move. Returns `None` if the game is already
    /// over, or if `max_depth` is zero.
    pub fn find_move_index(&mut self, max_depth: usize) -> (best_move: Option<usize>)
        requires
            old(self).wf(),
        ensures
            match best_move {
                Some(i) => max_depth > 0 && is_best_move(
                    old(self)@.board,
                    old(self)@.player,
                    max_depth as nat,
                    i as int,
                ),
                None => max_depth == 0 || moves(old(self)@.board, old(self)@.player).len() == 0,
            },
            board_score(old(self)@.board) != 0 ==> best_move is None,
            match best_move {
                Some(i) => old(self)@.found_move(max_depth as nat, true).index == Some(i as int),
                None => old(self)@.found_move(max_depth as nat, true).index is None,
            },
            final(self)@ == old(self)@.move_searched(max_depth as nat, true),
            final(self).wf(),
            old(self)@.grows_to(final(self)@),
    {
        proof {
            lemma_found_move_is_best(self@.board, self@.player, max_depth as nat, true);
        }
        let mut nodes_visited: usize = 0;
        self.find_move_index_internal(max_depth,  /* prune = */ true, &mut nodes_visited)
    }

    /// Searches the moves of the player to move `max_depth` plies deep,
    /// with or without pruning, and counts the nodes visited in
    /// `nodes_visited`, starting from zero.
    pub fn find_move_index_internal(
        &mut self,
        max_depth: usize,
        prune: bool,
        nodes_visited: &mut usize,
    ) -> (best_move: Option<usize>)
        requires
            old(self).wf(),
        ensures
            match best_move {
                Some(i) => old(self)@.found_move(max_depth as nat, prune).index == Some(i as int),
                None => old(self)@.found_move(max_depth as nat, prune).index is None,
            },
            *final(nodes_visited) == old(self)@.found_move(max_depth as nat, prune).visited,
            board_score(old(self)@.board) != 0 ==> best_move is None,
            final(self)@ == old(self)@.move_searched(max_depth as nat, prune),
            final(self).wf(),
            old(self)@.grows_to(final(self)@),
    {
        let ghost tree = self@;
        let ghost replies = moves(tree.board, tree.player);
        let ghost below = (max_depth - 1) as nat;
        let ghost total = find_move(tree.board, tree.player, max_depth as nat, prune);
        proof {
            self.current_state.lemma_view();
            tree.lemma_grows_to_self();
            tree.lemma_ensured();
            lemma_find_move_visits_bounded(tree.board, tree.player, max_depth as nat, prune);
        }
        *nodes_visited = 0;

        if self.current_state.score() != 0 || max_depth == 0 {
            // It's over already, or we didn't have any chances of computing it.
            return None;
        }
        let maximizing = self.current_state.player.weight() > 0;

        let mut best: i8 = if maximizing {
            i8::MIN
        } else {
            i8::MAX
        };
        let mut best_move: Option<usize> = None;

        let mut alpha: i8 = i8::MIN;
        let mut beta: i8 = i8::MAX;

        self.current_state.ensure_children();
        proof {
            self.current_state.lemma_view();
        }
        let mut children = self.current_state.children.take().unwrap();
        let ghost start = views(children@);
        let ghost goal = GameTree::root_scanned(
            start,
            tree.player,
            below,
            0,
            worst_value(tree.player),
            i8::MIN as int,
            i8::MAX as int,
            prune,
        );
        proof {
            MiniMaxNode::lemma_start(tree, children@);
        }
        let mut i: usize = 0;
        while i < children.len()
            invariant
                i <= children.len(),
                max_depth > 0,
                below == max_depth - 1,
                maximizing == crate::search::maximizing(tree.player),
                self.current_state.state@ == tree.board,
                self.current_state.player == tree.player,
                tree.wf(),
                tree.ensured().children == Some(start),
                goal == GameTree::root_scanned(
                    views(children@),
                    tree.player,
                    below,
                    i as int,
                    best as int,
                    alpha as int,
                    beta as int,
                    prune,
                ),
                grown_children(children@, tree.board, tree.player, start),
                replies == moves(tree.board, tree.player),
                total.visited < 986410,
                total.index == root_scan(
                    replies,
                    tree.player,
                    below,
                    i as int,
                    best as int,
                    index_of(best_move),
                    alpha as int,
                    beta as int,
                    prune,
                ).index,
                total.visited == *nodes_visited + root_scan(
                    replies,
                    tree.player,
                    below,
                    i as int,
                    best as int,
                    index_of(best_move),
                    alpha as int,
                    beta as int,
                    prune,
                ).visited,
            decreases children.len() - i,
        {
            let ghost before = children@;
            let child_score = children[i].minimax(max_depth - 1, alpha, beta, prune, nodes_visited);
            proof {
                assert(views(children@) =~= views(before).update(
                    i as int,
                    before[i as int]@.searched(below, alpha as int, beta as int, prune),
                ));
                assert forall|j: int| 0 <= j < children@.len() implies {
                    &&& (#[trigger] children@[j])@.wf()
                    &&& children@[j]@.board == replies[j]
                    &&& children@[j]@.player == tree.player.spec_next_player()
                    &&& start[j].grows_to(children@[j]@)
                } by {
                    if j == i {
                        start[j].lemma_grows_on(before[j]@, children@[j]@);
                    }
                }
            }

            let child_is_best_so_far = if maximizing {
                child_score > best
            } else {
                child_score < best
            };

            if child_is_best_so_far {
                best = child_score;
                if maximizing {
                    alpha = best;
                } else {
                    beta = best;
                }
                best_move = Some(i);
            }
            i += 1;
        }
        proof {
            MiniMaxNode::lemma_regrown(
                self.current_state.state,
                self.current_state.player,
                children,
                tree,
                start,
            );
        }
        self.current_state.children = Some(children);
        proof {
            self.current_state.lemma_view();
        }
        best_move
    }

    /// Plays one round: marks the box at (x, y) for the player to move,
    /// then searches for the reply of the other player and makes it, if
    /// there is one. The search looks `search_depth(requested_depth)` plies
    /// ahead.
    ///
    /// Returns an error, and changes nothing, if the box was not empty or
    /// the game is decided.
    pub fn play_round(&mut self, x: usize, y: usize, requested_depth: Option<usize>) -> (res:
        Result<(), ()>)
        requires
            old(self).wf(),
            x < 3,
            y < 3,
        ensures
            res is Err <==> old(self)@.board[3 * x + y] != CheckBox::Empty || board_score(
                old(self)@.board,
            ) != 0,
            res is Err ==> final(self)@ == old(self)@,
            res is Ok ==> final(self)@ == old(self)@.after_move(3 * x + y).replied(
                spec_search_depth(requested_depth) as nat,
            ),
            final(self).wf(),
    {
        if self.choose_square(x, y).is_err() {
            return Err(());
        }
        let max_depth = search_depth(requested_depth);

        // Now play as the opponent.
        if let Some(index) = self.find_move_index(max_depth) {
            self.choose_with_index(index);
        }
        Ok(())
    }

    /// Gives every node less than `depth` plies below the position now in
    /// play its children, whatever a search has looked at.
    pub fn update_to_depth(&mut self, depth: usize)
        requires
            old(self).wf(),
        ensures
            final(self)@ == old(self)@.expanded(depth as nat),
            final(self).wf(),
    {
        self.current_state.update_to_depth(depth);
    }

    /// The depth of the deepest node held, the position now in play being
    /// at depth zero.
    pub fn depth(&self) -> (depth: usize)
        requires
            self.wf(),
        ensures
            depth == self@.depth(),
    {
        self.current_state.depth()
    }
}

} // verus!

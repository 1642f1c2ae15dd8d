use tictactoe::minimax::MiniMaxNode;
use tictactoe::minimax::MiniMaxTree;
use tictactoe::minimax::search_depth;
use tictactoe::minimax::DEFAULT_DEPTH;
use tictactoe::state::CheckBox;
use tictactoe::state::State;

fn successors(state: &State, player: CheckBox) -> Vec<State> {
    let mut states = state.subsequent_states(player);
    let mut all = Vec::new();
    while let Some(s) = states.next() {
        all.push(s);
    }
    all
}

fn moves(state: &State, player: CheckBox) -> Vec<State> {
    if state.score() != 0 {
        Vec::new()
    } else {
        successors(state, player)
    }
}

/// The minimax value by plain recursion over the boards.
fn reference_value(state: &State, player: CheckBox, depth: usize) -> i8 {
    let replies = moves(state, player);
    if depth == 0 || replies.is_empty() {
        return state.score();
    }
    let values = replies.iter().map(|s| reference_value(s, player.next_player(), depth - 1));
    if player == CheckBox::O {
        values.max().unwrap()
    } else {
        values.min().unwrap()
    }
}

/// The first of the moves with the best value, by plain recursion.
fn reference_move(state: &State, player: CheckBox, depth: usize) -> Option<usize> {
    if depth == 0 {
        return None;
    }
    let replies = moves(state, player);
    let values: Vec<i8> =
        replies.iter().map(|s| reference_value(s, player.next_player(), depth - 1)).collect();
    let best = if player == CheckBox::O {
        values.iter().max()
    } else {
        values.iter().min()
    };
    best.map(|b| values.iter().position(|v| v == b).unwrap())
}

/// A tree on which the given boxes were chosen in turn, `X` moving first.
fn played(boxes: &[(usize, usize)]) -> MiniMaxTree {
    let mut tree = MiniMaxTree::new(CheckBox::X);
    for &(x, y) in boxes {
        assert_eq!(tree.choose_square(x, y), Ok(()));
    }
    tree
}

fn mover_after(boxes: &[(usize, usize)]) -> CheckBox {
    if boxes.len() % 2 == 0 {
        CheckBox::X
    } else {
        CheckBox::O
    }
}

fn rows(state: &State) -> String {
    let mut text = String::new();
    state.dump(0, &mut text);
    text
}

fn count_marks(state: &State, mark: CheckBox) -> usize {
    let mut n = 0;
    for x in 0..3 {
        for y in 0..3 {
            if state.get(x, y) == mark {
                n += 1;
            }
        }
    }
    n
}

const DRAWN_GAME: [(usize, usize); 9] =
    [(0, 0), (0, 1), (0, 2), (1, 1), (1, 0), (1, 2), (2, 1), (2, 0), (2, 2)];

#[test]
fn new_tree_holds_the_empty_board() {
    let tree = MiniMaxTree::new(CheckBox::X);
    assert_eq!(*tree.state(), State::initial());
    assert_eq!(tree.depth(), 0);
}

#[test]
fn choosing_a_box_marks_it_for_the_player_to_move() {
    let mut tree = MiniMaxTree::new(CheckBox::X);
    assert_eq!(tree.choose_square(0, 0), Ok(()));
    assert_eq!(tree.state().get(0, 0), CheckBox::X);
    assert_eq!(count_marks(tree.state(), CheckBox::Empty), 8);
    assert_eq!(tree.choose_square(2, 1), Ok(()));
    assert_eq!(tree.state().get(2, 1), CheckBox::O);
    assert_eq!(rows(tree.state()), "[X _ _]\n[_ _ _]\n[_ O _]\n");
}

#[test]
fn first_mover_can_be_o() {
    let mut tree = MiniMaxTree::new(CheckBox::O);
    assert_eq!(tree.choose_square(1, 1), Ok(()));
    assert_eq!(tree.state().get(1, 1), CheckBox::O);
    assert_eq!(tree.choose_square(0, 0), Ok(()));
    assert_eq!(tree.state().get(0, 0), CheckBox::X);
}

#[test]
fn choosing_a_marked_box_is_refused_and_changes_nothing() {
    let mut tree = played(&[(1, 1), (0, 2)]);
    tree.update_to_depth(2);
    let before = rows(tree.state());
    let mut dump_before = String::new();
    tree.dump(&mut dump_before);
    assert_eq!(tree.choose_square(1, 1), Err(()));
    assert_eq!(tree.choose_square(0, 2), Err(()));
    assert_eq!(rows(tree.state()), before);
    let mut dump_after = String::new();
    tree.dump(&mut dump_after);
    assert_eq!(dump_after, dump_before);
    assert_eq!(tree.choose_square(0, 0), Ok(()));
    assert_eq!(tree.state().get(0, 0), CheckBox::X);
}

#[test]
fn choosing_on_a_decided_board_is_refused() {
    let mut tree = played(&[(0, 0), (1, 0), (0, 1), (1, 1), (0, 2)]);
    assert_eq!(tree.state().score(), -10);
    assert_eq!(tree.choose_square(2, 2), Err(()));
    assert_eq!(tree.state().get(2, 2), CheckBox::Empty);
    assert_eq!(rows(tree.state()), "[X X X]\n[O O _]\n[_ _ _]\n");
}

#[test]
fn choosing_keeps_the_subtree_of_the_move() {
    let mut tree = MiniMaxTree::new(CheckBox::X);
    tree.update_to_depth(3);
    assert_eq!(tree.depth(), 3);
    assert_eq!(tree.choose_square(1, 1), Ok(()));
    assert_eq!(tree.depth(), 2);
    assert_eq!(tree.choose_square(0, 0), Ok(()));
    assert_eq!(tree.depth(), 1);
}

#[test]
fn choosing_by_index_follows_the_order_of_the_moves() {
    let mut tree = played(&[(0, 0), (1, 1)]);
    tree.choose_with_index(0);
    assert_eq!(rows(tree.state()), "[X X _]\n[_ O _]\n[_ _ _]\n");
    tree.choose_with_index(5);
    assert_eq!(rows(tree.state()), "[X X _]\n[_ O _]\n[_ _ O]\n");
    tree.choose_with_index(1);
    assert_eq!(rows(tree.state()), "[X X _]\n[X O _]\n[_ _ O]\n");
}

#[test]
fn choosing_by_index_keeps_the_subtree_of_the_move() {
    let mut tree = MiniMaxTree::new(CheckBox::X);
    tree.update_to_depth(2);
    tree.choose_with_index(4);
    assert_eq!(tree.state().get(1, 1), CheckBox::X);
    assert_eq!(tree.depth(), 1);
}

#[test]
fn no_move_at_depth_zero() {
    let mut tree = played(&[(0, 0)]);
    assert_eq!(tree.find_move_index(0), None);
    let mut visited = 17;
    assert_eq!(tree.find_move_index_internal(0, true, &mut visited), None);
    assert_eq!(visited, 0);
}

#[test]
fn no_move_on_a_decided_board() {
    let mut tree = played(&[(0, 0), (1, 0), (0, 1), (1, 1), (0, 2)]);
    for depth in 0..10 {
        assert_eq!(tree.find_move_index(depth), None);
        let mut visited = 17;
        assert_eq!(tree.find_move_index_internal(depth, false, &mut visited), None);
        assert_eq!(visited, 0);
    }
}

#[test]
fn no_move_on_a_full_board() {
    let mut tree = played(&DRAWN_GAME);
    assert_eq!(rows(tree.state()), "[X O X]\n[X O O]\n[O X X]\n");
    assert_eq!(tree.state().score(), 0);
    for depth in 0..10 {
        assert_eq!(tree.find_move_index(depth), None);
    }
    assert_eq!(tree.choose_square(0, 0), Err(()));
}

#[test]
fn winning_move_is_found() {
    let mut tree = played(&[(0, 0), (1, 0), (0, 1), (1, 1)]);
    assert_eq!(tree.find_move_index(1), Some(0));
    tree.choose_with_index(0);
    assert_eq!(rows(tree.state()), "[X X X]\n[O O _]\n[_ _ _]\n");
    assert_eq!(tree.state().score(), -10);
    assert_eq!(tree.find_move_index(9), None);
}

#[test]
fn blocking_move_is_found() {
    let mut tree = played(&[(2, 0), (0, 0), (2, 1)]);
    assert_eq!(tree.find_move_index(1), Some(0));
    assert_eq!(tree.find_move_index(2), Some(5));
    assert_eq!(tree.find_move_index(3), Some(5));
    tree.choose_with_index(5);
    assert_eq!(rows(tree.state()), "[O _ _]\n[_ _ _]\n[X X O]\n");
}

#[test]
fn lost_position_gives_the_first_move() {
    let mut tree = played(&[(2, 0), (0, 0), (2, 1)]);
    assert_eq!(tree.find_move_index(4), Some(0));
    assert_eq!(tree.find_move_index(9), Some(0));
}

#[test]
fn first_of_equal_moves_is_found() {
    let mut tree = MiniMaxTree::new(CheckBox::X);
    assert_eq!(tree.find_move_index(1), Some(0));
    assert_eq!(tree.find_move_index(4), Some(0));
    let mut tree = played(&[(0, 0)]);
    assert_eq!(tree.find_move_index(1), Some(0));
    assert_eq!(tree.find_move_index(9), Some(3));
}

#[test]
fn search_leaves_the_position_as_it_is() {
    let mut tree = played(&[(1, 1), (0, 0)]);
    let before = rows(tree.state());
    let _ = tree.find_move_index(9);
    assert_eq!(rows(tree.state()), before);
    assert_eq!(tree.choose_square(0, 1), Ok(()));
    assert_eq!(tree.state().get(0, 1), CheckBox::X);
}

#[test]
fn search_keeps_what_was_expanded() {
    let mut tree = played(&[(1, 1)]);
    tree.update_to_depth(3);
    let _ = tree.find_move_index(2);
    assert!(tree.depth() >= 3);
    let mut tree = played(&[(1, 1)]);
    let _ = tree.find_move_index(3);
    assert_eq!(tree.depth(), 3);
}

#[test]
fn shallow_searches_visit_every_node() {
    for prune in [true, false] {
        let mut tree = MiniMaxTree::new(CheckBox::X);
        let mut visited = 0;
        assert_eq!(tree.find_move_index_internal(1, prune, &mut visited), Some(0));
        assert_eq!(visited, 9);
        assert_eq!(tree.find_move_index_internal(2, prune, &mut visited), Some(0));
        assert_eq!(visited, 81);
    }
}

#[test]
fn full_search_without_pruning_visits_the_whole_game_tree() {
    let mut tree = MiniMaxTree::new(CheckBox::X);
    let mut visited = 0;
    assert_eq!(tree.find_move_index_internal(9, false, &mut visited), Some(0));
    assert_eq!(visited, 549945);
    let mut pruned = 0;
    assert_eq!(tree.find_move_index_internal(9, true, &mut pruned), Some(0));
    assert!(pruned < visited);
}

#[test]
fn pruning_finds_the_same_move_and_visits_no_more() {
    let openings: [&[(usize, usize)]; 8] = [
        &[],
        &[(0, 0)],
        &[(1, 1)],
        &[(0, 1), (1, 1)],
        &[(0, 0), (1, 1), (2, 2)],
        &[(2, 0), (0, 0), (2, 1)],
        &[(0, 0), (1, 0), (0, 1), (1, 1)],
        &[(1, 1), (0, 0), (2, 2), (0, 2), (0, 1)],
    ];
    for boxes in openings {
        for depth in 1..10 {
            let mut tree = played(boxes);
            let mut with_pruning = 0;
            let pruned = tree.find_move_index_internal(depth, true, &mut with_pruning);
            let mut tree = played(boxes);
            let mut without_pruning = 0;
            let plain = tree.find_move_index_internal(depth, false, &mut without_pruning);
            assert_eq!(pruned, plain);
            assert!(with_pruning <= without_pruning);
            assert_eq!(played(boxes).find_move_index(depth), plain);
        }
    }
}

#[test]
fn found_move_is_the_first_of_the_best() {
    let openings: [&[(usize, usize)]; 7] = [
        &[(0, 0)],
        &[(1, 1)],
        &[(0, 1), (1, 1)],
        &[(0, 0), (1, 1), (2, 2)],
        &[(2, 0), (0, 0), (2, 1)],
        &[(0, 0), (1, 0), (0, 1), (1, 1)],
        &[(1, 1), (0, 0), (2, 2), (0, 2), (0, 1)],
    ];
    for boxes in openings {
        for depth in 0..10 {
            let mut tree = played(boxes);
            let state = *tree.state();
            let expected = reference_move(&state, mover_after(boxes), depth);
            assert_eq!(tree.find_move_index(depth), expected);
        }
    }
}

#[test]
fn first_player_cannot_force_a_win_against_the_search() {
    fn explore(boxes: &mut Vec<(usize, usize)>, replies: &mut Vec<usize>) {
        let mut tree = MiniMaxTree::new(CheckBox::X);
        let mut reply = 0;
        for &(x, y) in boxes.iter() {
            assert_eq!(tree.choose_square(x, y), Ok(()));
            if reply < replies.len() {
                tree.choose_with_index(replies[reply]);
                reply += 1;
            }
        }
        assert_ne!(tree.state().score(), -10);
        if let Some(index) = tree.find_move_index(9) {
            tree.choose_with_index(index);
            replies.push(index);
            let state = *tree.state();
            assert_ne!(state.score(), -10);
            if state.score() == 0 {
                for x in 0..3 {
                    for y in 0..3 {
                        if state.get(x, y) == CheckBox::Empty {
                            boxes.push((x, y));
                            explore(boxes, replies);
                            boxes.pop();
                        }
                    }
                }
            }
            replies.pop();
        }
    }
    let mut tree = MiniMaxTree::new(CheckBox::X);
    assert_eq!(tree.choose_square(0, 0), Ok(()));
    assert_eq!(tree.state().get(0, 0), CheckBox::X);
    assert_eq!(count_marks(tree.state(), CheckBox::Empty), 8);
    explore(&mut vec![(0, 0)], &mut Vec::new());
}

#[test]
fn expansion_reaches_the_depth_asked_for() {
    let mut tree = MiniMaxTree::new(CheckBox::X);
    assert_eq!(tree.depth(), 0);
    tree.update_to_depth(0);
    assert_eq!(tree.depth(), 0);
    tree.update_to_depth(1);
    assert_eq!(tree.depth(), 1);
    tree.update_to_depth(4);
    assert_eq!(tree.depth(), 4);
    tree.update_to_depth(2);
    assert_eq!(tree.depth(), 4);
}

#[test]
fn expanding_twice_changes_nothing() {
    for depth in 0..5 {
        let mut tree = played(&[(1, 1), (0, 0)]);
        tree.update_to_depth(depth);
        let once = tree.depth();
        let mut dump_once = String::new();
        tree.dump(&mut dump_once);
        tree.update_to_depth(depth);
        let mut dump_twice = String::new();
        tree.dump(&mut dump_twice);
        assert_eq!(tree.depth(), once);
        assert_eq!(dump_twice, dump_once);
    }
}

#[test]
fn full_expansion_is_as_deep_as_the_longest_game() {
    let mut tree = played(&[(0, 0), (1, 1), (2, 2)]);
    tree.update_to_depth(20);
    assert_eq!(tree.depth(), 6);
    let mut tree = played(&DRAWN_GAME);
    tree.update_to_depth(3);
    assert_eq!(tree.depth(), 0);
    let mut tree = played(&[(0, 0), (1, 0), (0, 1), (1, 1), (0, 2)]);
    tree.update_to_depth(3);
    assert_eq!(tree.depth(), 0);
}

#[test]
fn dump_of_a_new_tree_is_board_and_score() {
    let tree = MiniMaxTree::new(CheckBox::X);
    let mut text = String::new();
    tree.dump(&mut text);
    assert_eq!(text, "[_ _ _]\n[_ _ _]\n[_ _ _]\nscore: 0\n");
}

#[test]
fn dump_indents_the_children() {
    let mut tree = played(&[(0, 0), (1, 0), (0, 1), (1, 1), (2, 2), (0, 2), (2, 0)]);
    tree.update_to_depth(2);
    let mut text = String::from("dump\n");
    tree.dump(&mut text);
    let expected = "dump\n\
[X X O]\n[O O _]\n[X _ X]\nscore: 0\n \
[X X O]\n [O O O]\n [X _ X]\n score: 10\n \
[X X O]\n [O O _]\n [X O X]\n score: 0\n  \
[X X O]\n  [O O X]\n  [X O X]\n  score: 0\n";
    assert_eq!(text, expected);
}

#[test]
fn dump_shows_a_negative_score() {
    let tree = played(&[(0, 0), (1, 0), (0, 1), (1, 1), (0, 2)]);
    let mut text = String::new();
    tree.dump(&mut text);
    assert_eq!(text, "[X X X]\n[O O _]\n[_ _ _]\nscore: -10\n");
}

#[test]
fn node_dump_starts_at_the_given_indent() {
    let node = MiniMaxNode::new(State::initial(), CheckBox::O);
    let mut text = String::new();
    node.dump(2, &mut text);
    assert_eq!(text, "  [_ _ _]\n  [_ _ _]\n  [_ _ _]\n  score: 0\n");
}

#[test]
fn node_search_returns_the_minimax_value() {
    let state = *played(&[(0, 0), (1, 0), (0, 1), (1, 1)]).state();
    let mut visited = 0;
    let mut node = MiniMaxNode::new(state, CheckBox::X);
    assert_eq!(node.minimax(0, i8::MIN, i8::MAX, true, &mut visited), 0);
    assert_eq!(visited, 1);
    assert_eq!(node.depth(), 0);
    assert_eq!(node.minimax(1, i8::MIN, i8::MAX, false, &mut visited), -10);
    assert_eq!(visited, 7);
    assert_eq!(node.depth(), 1);
    let mut node = MiniMaxNode::new(state, CheckBox::O);
    let mut visited = 0;
    assert_eq!(node.minimax(1, i8::MIN, i8::MAX, false, &mut visited), 10);
    assert_eq!(visited, 6);
}

#[test]
fn node_search_stops_outside_the_window() {
    let state = *played(&[(0, 0), (1, 0), (0, 1), (1, 1)]).state();
    let mut node = MiniMaxNode::new(state, CheckBox::X);
    let mut visited = 0;
    assert_eq!(node.minimax(1, -5, 5, true, &mut visited), -10);
    assert_eq!(visited, 2);
    let mut node = MiniMaxNode::new(state, CheckBox::X);
    let mut visited = 0;
    assert_eq!(node.minimax(1, -5, 5, false, &mut visited), -10);
    assert_eq!(visited, 6);
    let mut node = MiniMaxNode::new(state, CheckBox::X);
    let mut visited = 0;
    assert_eq!(node.minimax(1, -10, 5, true, &mut visited), -10);
    assert_eq!(visited, 6);
}

#[test]
fn node_search_agrees_with_plain_recursion() {
    let openings: [&[(usize, usize)]; 5] = [
        &[(0, 0)],
        &[(1, 1), (0, 0)],
        &[(0, 1), (1, 1), (2, 1)],
        &[(2, 0), (0, 0), (2, 1)],
        &[(1, 1), (0, 0), (2, 2), (0, 2), (0, 1)],
    ];
    for boxes in openings {
        let state = *played(boxes).state();
        for player in [CheckBox::X, CheckBox::O] {
            for depth in 0..9 {
                let expected = reference_value(&state, player, depth);
                let mut visited = 0;
                let mut node = MiniMaxNode::new(state, player);
                assert_eq!(node.minimax(depth, i8::MIN, i8::MAX, true, &mut visited), expected);
                let mut plain = 0;
                let mut node = MiniMaxNode::new(state, player);
                assert_eq!(node.minimax(depth, i8::MIN, i8::MAX, false, &mut plain), expected);
                assert!(visited <= plain);
            }
        }
    }
}

#[test]
fn node_expansion_is_as_deep_as_asked() {
    let mut node = MiniMaxNode::new(State::initial(), CheckBox::X);
    node.update_to_depth(3);
    assert_eq!(node.depth(), 3);
    node.update_to_depth(3);
    assert_eq!(node.depth(), 3);
}

#[test]
fn search_depth_is_one_ply_at_least() {
    assert_eq!(DEFAULT_DEPTH, 4);
    assert_eq!(search_depth(None), 4);
    assert_eq!(search_depth(Some(0)), 1);
    assert_eq!(search_depth(Some(1)), 1);
    assert_eq!(search_depth(Some(7)), 7);
    assert_eq!(search_depth(Some(usize::MAX)), usize::MAX);
}

#[test]
fn round_makes_the_move_and_the_reply() {
    let mut tree = MiniMaxTree::new(CheckBox::X);
    assert_eq!(tree.play_round(2, 0, Some(9)), Ok(()));
    assert_eq!(rows(tree.state()), "[_ _ _]\n[_ O _]\n[X _ _]\n");
    assert_eq!(tree.play_round(2, 1, None), Ok(()));
    assert_eq!(rows(tree.state()), "[_ _ _]\n[_ O _]\n[X X O]\n");
    assert_eq!(tree.play_round(2, 2, Some(3)), Err(()));
    assert_eq!(tree.play_round(1, 1, Some(3)), Err(()));
    assert_eq!(rows(tree.state()), "[_ _ _]\n[_ O _]\n[X X O]\n");
}

#[test]
fn round_replies_as_the_search_says() {
    let mut tree = played(&[(0, 0), (1, 1)]);
    let mut other = played(&[(0, 0), (1, 1)]);
    assert_eq!(tree.play_round(2, 2, Some(0)), Ok(()));
    assert_eq!(other.choose_square(2, 2), Ok(()));
    let index = other.find_move_index(1).unwrap();
    other.choose_with_index(index);
    assert_eq!(rows(tree.state()), rows(other.state()));
    assert_eq!(count_marks(tree.state(), CheckBox::O), 2);
}

#[test]
fn round_that_ends_the_game_has_no_reply() {
    let mut tree = played(&[(0, 0), (1, 0), (0, 1), (1, 1)]);
    assert_eq!(tree.play_round(0, 2, Some(5)), Ok(()));
    assert_eq!(rows(tree.state()), "[X X X]\n[O O _]\n[_ _ _]\n");
    assert_eq!(tree.play_round(2, 2, Some(5)), Err(()));
    let mut tree = played(&DRAWN_GAME[..8]);
    assert_eq!(tree.play_round(2, 2, None), Ok(()));
    assert_eq!(rows(tree.state()), "[X O X]\n[X O O]\n[O X X]\n");
}

use tictactoe::state::CheckBox;
use tictactoe::state::State;

/// The board with `player` in box (x, y), which must be empty, reached
/// through the successors of `state`.
fn mark(state: &State, x: usize, y: usize, player: CheckBox) -> State {
    assert_eq!(state.get(x, y), CheckBox::Empty);
    let mut before = 0;
    for row in 0..3 {
        for col in 0..3 {
            if 3 * row + col < 3 * x + y && state.get(row, col) == CheckBox::Empty {
                before += 1;
            }
        }
    }
    let mut states = state.subsequent_states(player);
    for _ in 0..before {
        assert!(states.next().is_some());
    }
    states.next().unwrap()
}

/// The board with the given rows: 'x' and 'o' are marks, '_' is an empty
/// box.
fn board(rows: [&str; 3]) -> State {
    let mut state = State::initial();
    for (x, row) in rows.iter().enumerate() {
        for (y, c) in row.chars().enumerate() {
            match c {
                'x' => state = mark(&state, x, y, CheckBox::X),
                'o' => state = mark(&state, x, y, CheckBox::O),
                _ => {}
            }
        }
    }
    state
}

fn all_successors(state: &State, player: CheckBox) -> Vec<State> {
    let mut states = state.subsequent_states(player);
    let mut all = Vec::new();
    while let Some(s) = states.next() {
        all.push(s);
    }
    all
}

#[test]
fn weights_have_opposite_signs() {
    assert_eq!(CheckBox::Empty.weight(), 0);
    assert_eq!(CheckBox::X.weight(), -10);
    assert_eq!(CheckBox::O.weight(), 10);
}

#[test]
fn next_player_alternates() {
    assert_eq!(CheckBox::X.next_player(), CheckBox::O);
    assert_eq!(CheckBox::O.next_player(), CheckBox::X);
    assert_eq!(CheckBox::Empty.next_player(), CheckBox::Empty);
}

#[test]
fn initial_board_is_empty() {
    let state = State::initial();
    for x in 0..3 {
        for y in 0..3 {
            assert_eq!(state.get(x, y), CheckBox::Empty);
        }
    }
    assert_eq!(state.score(), 0);
}

#[test]
fn get_reads_row_then_column() {
    let state = board(["_x_", "o__", "___"]);
    assert_eq!(state.get(0, 1), CheckBox::X);
    assert_eq!(state.get(1, 0), CheckBox::O);
    assert_eq!(state.get(1, 1), CheckBox::Empty);
    assert_eq!(state.get(2, 2), CheckBox::Empty);
}

#[test]
fn top_row_of_x_scores_minus_ten() {
    assert_eq!(board(["xxx", "___", "___"]).score(), -10);
}

#[test]
fn main_diagonal_of_o_scores_ten() {
    assert_eq!(board(["o__", "_o_", "__o"]).score(), 10);
}

#[test]
fn every_line_scores() {
    assert_eq!(board(["___", "ooo", "___"]).score(), 10);
    assert_eq!(board(["___", "___", "xxx"]).score(), -10);
    assert_eq!(board(["x__", "x__", "x__"]).score(), -10);
    assert_eq!(board(["_o_", "_o_", "_o_"]).score(), 10);
    assert_eq!(board(["__x", "__x", "__x"]).score(), -10);
    assert_eq!(board(["x__", "_x_", "__x"]).score(), -10);
    assert_eq!(board(["__o", "_o_", "o__"]).score(), 10);
    assert_eq!(board(["__x", "_x_", "x__"]).score(), -10);
}

#[test]
fn incomplete_and_mixed_lines_score_nothing() {
    assert_eq!(board(["xx_", "___", "___"]).score(), 0);
    assert_eq!(board(["xox", "___", "___"]).score(), 0);
    assert_eq!(board(["x__", "_o_", "__x"]).score(), 0);
    assert_eq!(board(["__o", "_x_", "o__"]).score(), 0);
}

#[test]
fn first_complete_line_decides_the_score() {
    assert_eq!(board(["xxx", "ooo", "___"]).score(), -10);
    assert_eq!(board(["ooo", "xxx", "___"]).score(), 10);
    assert_eq!(board(["___", "ooo", "xxx"]).score(), 10);
    assert_eq!(board(["xo_", "xo_", "xo_"]).score(), -10);
    assert_eq!(board(["ox_", "ox_", "ox_"]).score(), 10);
    assert_eq!(board(["_xo", "_xo", "_xo"]).score(), -10);
}

#[test]
fn full_board_without_line_scores_nothing() {
    let state = board(["xox", "xoo", "oxx"]);
    assert_eq!(state.score(), 0);
    assert!(all_successors(&state, CheckBox::X).is_empty());
}

#[test]
fn score_is_the_same_when_asked_twice() {
    let state = board(["xxx", "o_o", "___"]);
    let first = state.score();
    let second = state.score();
    assert_eq!(first, second);
    assert_eq!(state, board(["xxx", "o_o", "___"]));
}

#[test]
fn successors_come_in_row_major_order() {
    let state = board(["_ox", "xoo", "ox_"]);
    let all = all_successors(&state, CheckBox::X);
    assert_eq!(all.len(), 2);
    assert_eq!(all[0], board(["xox", "xoo", "ox_"]));
    assert_eq!(all[1], board(["_ox", "xoo", "oxx"]));
}

#[test]
fn empty_board_has_nine_successors() {
    let state = State::initial();
    let all = all_successors(&state, CheckBox::O);
    assert_eq!(all.len(), 9);
    for (k, s) in all.iter().enumerate() {
        for x in 0..3 {
            for y in 0..3 {
                let expected = if 3 * x + y == k { CheckBox::O } else { CheckBox::Empty };
                assert_eq!(s.get(x, y), expected);
            }
        }
    }
}

#[test]
fn successors_skip_marked_boxes() {
    let state = board(["x_o", "___", "_x_"]);
    let all = all_successors(&state, CheckBox::O);
    assert_eq!(all.len(), 6);
    assert_eq!(all[0], board(["xoo", "___", "_x_"]));
    assert_eq!(all[1], board(["x_o", "o__", "_x_"]));
    assert_eq!(all[2], board(["x_o", "_o_", "_x_"]));
    assert_eq!(all[3], board(["x_o", "__o", "_x_"]));
    assert_eq!(all[4], board(["x_o", "___", "ox_"]));
    assert_eq!(all[5], board(["x_o", "___", "_xo"]));
}

#[test]
fn successors_of_a_decided_board_are_still_handed_out() {
    let state = board(["xxx", "oo_", "___"]);
    assert_eq!(all_successors(&state, CheckBox::O).len(), 4);
}

#[test]
fn exhausted_iterator_stays_exhausted() {
    let state = board(["xox", "xoo", "ox_"]);
    let mut states = state.subsequent_states(CheckBox::O);
    assert_eq!(states.next(), Some(board(["xox", "xoo", "oxo"])));
    assert_eq!(states.next(), None);
    assert_eq!(states.next(), None);
}

#[test]
fn successor_leaves_the_board_unchanged() {
    let state = board(["x__", "___", "___"]);
    let _ = all_successors(&state, CheckBox::O);
    assert_eq!(state, board(["x__", "___", "___"]));
}

#[test]
fn dump_row_writes_marks_between_brackets() {
    let state = board(["x_o", "___", "_x_"]);
    let mut text = String::new();
    state.dump_row(0, &mut text);
    assert_eq!(text, "[X _ O]");
    state.dump_row(2, &mut text);
    assert_eq!(text, "[X _ O][_ X _]");
}

#[test]
fn dump_writes_three_indented_rows() {
    let state = board(["x_o", "_o_", "__x"]);
    let mut text = String::new();
    state.dump(0, &mut text);
    assert_eq!(text, "[X _ O]\n[_ O _]\n[_ _ X]\n");
    let mut indented = String::from("> ");
    state.dump(3, &mut indented);
    assert_eq!(indented, ">    [X _ O]\n   [_ O _]\n   [_ _ X]\n");
}

use grid_games::tetris::{Board, Drawable, FourBar, FourCube, Piece, TriThing};

#[test]
fn fresh_board_cells_are_empty() {
    let board = Board::new(10, 20);
    assert_eq!(board.get_cell(0, 0), 0);
    assert_eq!(board.get_cell(9, 19), 0);
    assert_eq!(board.get_cell(5, 7), 0);
}

#[test]
fn board_reports_its_dimensions() {
    let board = Board::new(10, 20);
    assert_eq!(board.width(), 10);
    assert_eq!(board.height(), 20);
    assert_eq!(board.piece_count(), 0);
    assert_eq!(board.active_index(), None);
}

#[test]
fn cube_sprite_matches_fixed_pattern() {
    let pattern = FourCube.get_sprite();
    let expected = [[0, 0, 0, 0], [0, 0, 0, 0], [1, 1, 0, 0], [1, 1, 0, 0]];
    assert_eq!(pattern, expected);
    assert_eq!(grid_games::tetris::shape_of(Piece::Cube), expected);
}

#[test]
fn bar_sprite_matches_fixed_pattern() {
    let pattern = FourBar.get_sprite();
    let expected = [[1, 0, 0, 0], [1, 0, 0, 0], [1, 0, 0, 0], [1, 0, 0, 0]];
    assert_eq!(pattern, expected);
    assert_eq!(grid_games::tetris::shape_of(Piece::Bar), expected);
}

#[test]
fn tri_sprite_matches_fixed_pattern() {
    let pattern = TriThing.get_sprite();
    let expected = [[0, 0, 0, 0], [0, 0, 0, 0], [0, 1, 0, 0], [1, 1, 0, 0]];
    assert_eq!(pattern, expected);
    assert_eq!(grid_games::tetris::shape_of(Piece::Tri), expected);
}

#[test]
fn spawn_places_piece_at_center_top_and_makes_it_active() {
    let mut board = Board::new(10, 20);
    board.new_sprite(Piece::Cube);
    assert_eq!(board.piece_count(), 1);
    assert_eq!(board.piece_location(0), (5, 0));
    assert_eq!(board.active_index(), Some(0));

    board.new_sprite(Piece::Bar);
    assert_eq!(board.piece_count(), 2);
    assert_eq!(board.piece_location(1), (5, 0));
    assert_eq!(board.active_index(), Some(1));
}

#[test]
fn unobstructed_piece_descends_one_row_per_tick() {
    let mut board = Board::new(10, 20);
    board.new_sprite(Piece::Cube);
    board.render_frame();
    assert_eq!(board.piece_location(0), (5, 1));
    board.render_frame();
    assert_eq!(board.piece_location(0), (5, 2));
}

#[test]
fn piece_settles_at_floor_and_stays() {
    let mut board = Board::new(10, 20);
    board.new_sprite(Piece::Cube);
    for _ in 0..20 {
        board.render_frame();
    }
    // The anchor row is clamped at the grid height and stays there.
    assert_eq!(board.piece_location(0), (5, 20));
    for _ in 0..5 {
        board.render_frame();
    }
    assert_eq!(board.piece_location(0), (5, 20));
    // The settled footprint sits in the last grid row.
    assert_eq!(board.get_cell(5, 19), 255);
    assert_eq!(board.get_cell(6, 19), 255);
    assert_eq!(board.get_cell(5, 18), 0);
}

#[test]
fn second_piece_stacks_on_the_first() {
    let mut board = Board::new(10, 20);
    board.new_sprite(Piece::Cube);
    for _ in 0..25 {
        board.render_frame();
    }
    board.new_sprite(Piece::Cube);
    for _ in 0..25 {
        board.render_frame();
    }
    assert_eq!(board.piece_location(0), (5, 20));
    // The later piece stops once its prospective cells hit the settled ones.
    assert_eq!(board.piece_location(1), (5, 15));
    // Its footprint rests directly above the first piece's settled row.
    assert_eq!(board.get_cell(5, 18), 254);
    assert_eq!(board.get_cell(6, 18), 254);
    assert_eq!(board.get_cell(5, 19), 255);
}

#[test]
fn later_piece_tag_wins_overlapping_cells() {
    let mut board = Board::new(10, 20);
    board.new_sprite(Piece::Cube);
    board.new_sprite(Piece::Cube);
    board.draw_sprite();
    // Both pieces occupy the same cells; the later index (tag 254) is visible.
    assert_eq!(board.get_cell(5, 2), 254);
    assert_eq!(board.get_cell(6, 2), 254);
    assert_eq!(board.get_cell(5, 3), 254);
    assert_eq!(board.get_cell(6, 3), 254);
    assert_eq!(board.get_cell(7, 2), 0);
}

#[test]
fn input_right_then_left_restores_the_column() {
    let mut board = Board::new(10, 20);
    board.new_sprite(Piece::Bar);
    board.input(true);
    assert_eq!(board.piece_location(0), (6, 0));
    board.input(false);
    assert_eq!(board.piece_location(0), (5, 0));
}

#[test]
fn input_without_active_piece_changes_nothing() {
    let mut board = Board::new(10, 20);
    board.input(true);
    board.input(false);
    assert_eq!(board.piece_count(), 0);
}

#[test]
fn input_moves_only_the_active_piece() {
    let mut board = Board::new(10, 20);
    board.new_sprite(Piece::Cube);
    board.new_sprite(Piece::Bar);
    board.input(true);
    assert_eq!(board.piece_location(0), (5, 0));
    assert_eq!(board.piece_location(1), (6, 0));
}

#[test]
fn glyphs_follow_the_cell_value() {
    assert_eq!(Board::glyph_for(0), "  ");
    assert_eq!(Board::glyph_for(1), "**");
    assert_eq!(Board::glyph_for(7), "[]");
    assert_eq!(Board::glyph_for(255), "[]");
}

#[test]
fn empty_frame_text_is_a_bordered_blank_grid() {
    let board = Board::new(2, 2);
    let text = board.frame_text();
    assert_eq!(text, "||====|||\n||    |||\n||    |||\n||====|||\n");
}

#[test]
fn frame_text_shows_a_stamped_piece() {
    let mut board = Board::new(4, 4);
    board.new_sprite(Piece::Cube);
    let text = board.render_frame();
    // The piece's box reaches past the right edge; its empty columns clamp
    // onto the last grid column and erase what its occupied column wrote
    // there, so only one column of the block survives at the edge.
    let expected = "||========|||\n||        |||\n||        |||\n||    []  |||\n||    []  |||\n||========|||\n";
    assert_eq!(text, expected);
}

#[test]
fn pick_piece_follows_the_weighted_bands() {
    assert_eq!(grid_games::tetris::pick_piece(0), Piece::Cube);
    assert_eq!(grid_games::tetris::pick_piece(39), Piece::Cube);
    assert_eq!(grid_games::tetris::pick_piece(40), Piece::Bar);
    assert_eq!(grid_games::tetris::pick_piece(99), Piece::Bar);
    assert_eq!(grid_games::tetris::pick_piece(100), Piece::Tri);
    assert_eq!(grid_games::tetris::pick_piece(199), Piece::Tri);
    assert_eq!(grid_games::tetris::pick_piece(200), Piece::Bar);
    assert_eq!(grid_games::tetris::pick_piece(255), Piece::Bar);
}

#[test]
fn random_piece_returns_a_known_variant() {
    for _ in 0..32 {
        let p = grid_games::tetris::random_piece();
        assert!(matches!(p, Piece::Cube | Piece::Bar | Piece::Tri));
    }
}

#[test]
fn clear_board_empties_every_cell() {
    let mut board = Board::new(10, 20);
    board.new_sprite(Piece::Cube);
    board.draw_sprite();
    assert_ne!(board.get_cell(5, 2), 0);
    board.clear_board();
    for y in 0..20 {
        for x in 0..10 {
            assert_eq!(board.get_cell(x, y), 0);
        }
    }
}

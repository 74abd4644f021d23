use rust_console_game_engine::Cell;
use rust_console_game_engine::RustConsole;
use rust_console_game_engine::RustConsoleSprite;

fn snapshot(c: &RustConsole) -> Vec<Cell> {
    let mut cells = Vec::new();
    for y in 0..c.height() {
        for x in 0..c.width() {
            cells.push(c.cell(x, y));
        }
    }
    cells
}

#[test]
fn new_console_is_blank() {
    let c = RustConsole::new(4, 3, 8, 16);
    assert_eq!(c.width(), 4);
    assert_eq!(c.height(), 3);
    assert_eq!(c.font_width(), 8);
    assert_eq!(c.font_height(), 16);
    for y in 0..3 {
        for x in 0..4 {
            assert_eq!(c.cell(x, y), Cell { glyph: ' ', color: 0 });
        }
    }
}

#[test]
fn draw_writes_one_cell() {
    let mut c = RustConsole::new(5, 5, 8, 8);
    c.draw(2, 1, '#', 7);
    for y in 0..5 {
        for x in 0..5 {
            if (x, y) == (2, 1) {
                assert_eq!(c.cell(x, y), Cell { glyph: '#', color: 7 });
            } else {
                assert_eq!(c.cell(x, y), Cell { glyph: ' ', color: 0 });
            }
        }
    }
}

#[test]
fn draw_out_of_bounds_is_a_no_op() {
    let mut c = RustConsole::new(5, 5, 8, 8);
    c.draw(2, 1, '#', 7);
    let before = snapshot(&c);
    c.draw(5, 1, 'X', 3);
    c.draw(1, 5, 'X', 3);
    c.draw(5, 5, 'X', 3);
    c.draw(usize::MAX, 0, 'X', 3);
    c.draw(0, usize::MAX, 'X', 3);
    assert_eq!(snapshot(&c), before);
}

#[test]
fn clear_resets_every_cell() {
    let mut c = RustConsole::new(4, 4, 8, 8);
    c.fill(0, 0, 4, 4, '#', 9);
    c.clear();
    for y in 0..4 {
        for x in 0..4 {
            assert_eq!(c.cell(x, y), Cell { glyph: ' ', color: 0 });
        }
    }
}

#[test]
fn fill_covers_half_open_rectangle() {
    let mut c = RustConsole::new(6, 6, 8, 8);
    c.fill(1, 2, 4, 5, 'o', 2);
    for y in 0..6 {
        for x in 0..6 {
            if (1..4).contains(&x) && (2..5).contains(&y) {
                assert_eq!(c.cell(x, y), Cell { glyph: 'o', color: 2 });
            } else {
                assert_eq!(c.cell(x, y), Cell { glyph: ' ', color: 0 });
            }
        }
    }
}

#[test]
fn fill_clips_to_the_grid() {
    let mut c = RustConsole::new(3, 3, 8, 8);
    c.fill(1, 1, 10, 10, '*', 1);
    for y in 0..3 {
        for x in 0..3 {
            if x >= 1 && y >= 1 {
                assert_eq!(c.cell(x, y), Cell { glyph: '*', color: 1 });
            } else {
                assert_eq!(c.cell(x, y), Cell { glyph: ' ', color: 0 });
            }
        }
    }
}

#[test]
fn draw_string_advances_one_cell_per_char() {
    let mut c = RustConsole::new(6, 3, 8, 8);
    c.draw_string(1, 2, "AB", 7);
    assert_eq!(c.cell(1, 2), Cell { glyph: 'A', color: 7 });
    assert_eq!(c.cell(2, 2), Cell { glyph: 'B', color: 7 });
    assert_eq!(c.cell(0, 2), Cell { glyph: ' ', color: 0 });
    assert_eq!(c.cell(3, 2), Cell { glyph: ' ', color: 0 });
}

#[test]
fn draw_string_clips_at_the_right_edge() {
    let mut c = RustConsole::new(5, 2, 8, 8);
    c.draw_string(3, 0, "XYZ", 4);
    assert_eq!(c.cell(3, 0), Cell { glyph: 'X', color: 4 });
    assert_eq!(c.cell(4, 0), Cell { glyph: 'Y', color: 4 });
    for y in 0..2 {
        for x in 0..3 {
            assert_eq!(c.cell(x, y), Cell { glyph: ' ', color: 0 });
        }
    }
}

#[test]
fn draw_string_alpha_keeps_cells_under_spaces() {
    let mut c = RustConsole::new(6, 1, 8, 8);
    c.fill(0, 0, 6, 1, '.', 1);
    c.draw_string_alpha(0, 0, "A C", 7);
    assert_eq!(c.cell(0, 0), Cell { glyph: 'A', color: 7 });
    assert_eq!(c.cell(1, 0), Cell { glyph: '.', color: 1 });
    assert_eq!(c.cell(2, 0), Cell { glyph: 'C', color: 7 });
}

#[test]
fn draw_line_same_cells_in_both_directions() {
    let mut a = RustConsole::new(9, 6, 8, 8);
    let mut b = RustConsole::new(9, 6, 8, 8);
    a.draw_line(1, 1, 7, 4, '#', 7);
    b.draw_line(7, 4, 1, 1, '#', 7);
    assert_eq!(snapshot(&a), snapshot(&b));

    let mut a = RustConsole::new(9, 9, 8, 8);
    let mut b = RustConsole::new(9, 9, 8, 8);
    a.draw_line(2, 8, 3, 0, '#', 7);
    b.draw_line(3, 0, 2, 8, '#', 7);
    assert_eq!(snapshot(&a), snapshot(&b));
}

#[test]
fn draw_line_horizontal_vertical_and_endpoints() {
    let mut c = RustConsole::new(6, 6, 8, 8);
    c.draw_line(1, 3, 4, 3, '-', 7);
    for x in 1..=4 {
        assert_eq!(c.cell(x, 3), Cell { glyph: '-', color: 7 });
    }
    assert_eq!(c.cell(0, 3), Cell { glyph: ' ', color: 0 });
    assert_eq!(c.cell(5, 3), Cell { glyph: ' ', color: 0 });

    let mut c = RustConsole::new(6, 6, 8, 8);
    c.draw_line(2, 1, 2, 4, '|', 7);
    for y in 1..=4 {
        assert_eq!(c.cell(2, y), Cell { glyph: '|', color: 7 });
    }

    let mut c = RustConsole::new(6, 6, 8, 8);
    c.draw_line(3, 3, 3, 3, '*', 7);
    assert_eq!(c.cell(3, 3), Cell { glyph: '*', color: 7 });
}

#[test]
fn draw_line_diagonal_is_connected() {
    let mut c = RustConsole::new(5, 5, 8, 8);
    c.draw_line(0, 0, 4, 4, '\\', 7);
    for i in 0..5 {
        assert_eq!(c.cell(i, i), Cell { glyph: '\\', color: 7 });
    }
}

#[test]
fn draw_triangle_draws_the_three_edges() {
    let mut c = RustConsole::new(7, 7, 8, 8);
    c.draw_triangle(1, 1, 5, 1, 3, 4, '#', 7);
    // the three corners and the horizontal edge lie on the outline
    for x in 1..=5 {
        assert_eq!(c.cell(x, 1), Cell { glyph: '#', color: 7 });
    }
    assert_eq!(c.cell(3, 4), Cell { glyph: '#', color: 7 });
    // the interior stays blank
    assert_eq!(c.cell(3, 2), Cell { glyph: ' ', color: 0 });
}

#[test]
fn fill_triangle_flat_bottom_rows() {
    let mut c = RustConsole::new(6, 4, 8, 8);
    c.fill_triangle(0, 0, 4, 0, 2, 2, '#', 7);
    let hit = |x: usize, y: usize| c.cell(x, y) == Cell { glyph: '#', color: 7 };
    for x in 0..=4 {
        assert!(hit(x, 0));
    }
    for x in 1..=3 {
        assert!(hit(x, 1));
    }
    assert!(!hit(0, 1) && !hit(4, 1));
    assert!(hit(2, 2));
    assert!(!hit(1, 2) && !hit(3, 2));
    for x in 0..6 {
        assert!(!hit(x, 3));
    }
}

#[test]
fn fill_triangle_degenerate_draws_at_most_one_cell() {
    let mut c = RustConsole::new(5, 5, 8, 8);
    c.fill_triangle(3, 3, 3, 3, 3, 3, '#', 7);
    for y in 0..5 {
        for x in 0..5 {
            if (x, y) == (3, 3) {
                assert_eq!(c.cell(x, y), Cell { glyph: '#', color: 7 });
            } else {
                assert_eq!(c.cell(x, y), Cell { glyph: ' ', color: 0 });
            }
        }
    }
    // a degenerate triangle off the grid writes nothing and does not panic
    let mut c = RustConsole::new(5, 5, 8, 8);
    c.fill_triangle(9, 9, 9, 9, 9, 9, '#', 7);
    for y in 0..5 {
        for x in 0..5 {
            assert_eq!(c.cell(x, y), Cell { glyph: ' ', color: 0 });
        }
    }
}

#[test]
fn fill_triangle_collinear_terminates() {
    let mut c = RustConsole::new(8, 8, 8, 8);
    c.fill_triangle(1, 1, 3, 3, 5, 5, '#', 7);
    for i in 1..=5 {
        assert_eq!(c.cell(i, i), Cell { glyph: '#', color: 7 });
    }
}

#[test]
fn draw_circle_radius_zero_writes_nothing() {
    let mut c = RustConsole::new(5, 5, 8, 8);
    c.draw_circle(2, 2, 0, '#', 7);
    for y in 0..5 {
        for x in 0..5 {
            assert_eq!(c.cell(x, y), Cell { glyph: ' ', color: 0 });
        }
    }
}

#[test]
fn fill_circle_radius_zero_writes_nothing() {
    let mut c = RustConsole::new(5, 5, 8, 8);
    c.fill_circle(2, 2, 0, '#', 7);
    for y in 0..5 {
        for x in 0..5 {
            assert_eq!(c.cell(x, y), Cell { glyph: ' ', color: 0 });
        }
    }
}

#[test]
fn draw_circle_radius_one() {
    let mut c = RustConsole::new(5, 5, 8, 8);
    c.draw_circle(2, 2, 1, 'o', 7);
    let expected = [(2usize, 1usize), (1, 2), (3, 2), (2, 3)];
    for y in 0..5 {
        for x in 0..5 {
            if expected.contains(&(x, y)) {
                assert_eq!(c.cell(x, y), Cell { glyph: 'o', color: 7 });
            } else {
                assert_eq!(c.cell(x, y), Cell { glyph: ' ', color: 0 });
            }
        }
    }
}

#[test]
fn fill_circle_radius_one() {
    let mut c = RustConsole::new(5, 5, 8, 8);
    c.fill_circle(2, 2, 1, 'o', 7);
    let expected = [(2usize, 1usize), (1, 2), (2, 2), (3, 2), (2, 3)];
    for y in 0..5 {
        for x in 0..5 {
            if expected.contains(&(x, y)) {
                assert_eq!(c.cell(x, y), Cell { glyph: 'o', color: 7 });
            } else {
                assert_eq!(c.cell(x, y), Cell { glyph: ' ', color: 0 });
            }
        }
    }
}

#[test]
fn circle_near_the_edge_clips_without_panicking() {
    let mut c = RustConsole::new(4, 4, 8, 8);
    c.draw_circle(0, 0, 3, 'o', 7);
    c.fill_circle(0, 3, 2, 'x', 7);
    assert_eq!(c.width(), 4);
    assert_eq!(c.height(), 4);
}

#[test]
fn draw_sprite_skips_blank_glyphs() {
    let mut c = RustConsole::new(6, 6, 8, 8);
    c.fill(0, 0, 6, 6, '.', 1);
    let mut s = RustConsoleSprite::new(2, 2).unwrap();
    s.set_glyph(0, 0, 'A');
    s.set_color(0, 0, 3);
    s.set_glyph(1, 1, 'B');
    s.set_color(1, 1, 4);
    c.draw_sprite(2, 3, &s);
    assert_eq!(c.cell(2, 3), Cell { glyph: 'A', color: 3 });
    assert_eq!(c.cell(3, 4), Cell { glyph: 'B', color: 4 });
    // the sprite's blank cells are transparent
    assert_eq!(c.cell(3, 3), Cell { glyph: '.', color: 1 });
    assert_eq!(c.cell(2, 4), Cell { glyph: '.', color: 1 });
}

#[test]
fn draw_sprite_clips_at_the_edge() {
    let mut c = RustConsole::new(4, 4, 8, 8);
    let mut s = RustConsoleSprite::new(3, 1).unwrap();
    s.set_glyph(0, 0, 'a');
    s.set_glyph(1, 0, 'b');
    s.set_glyph(2, 0, 'c');
    c.draw_sprite(2, 1, &s);
    assert_eq!(c.cell(2, 1).glyph, 'a');
    assert_eq!(c.cell(3, 1).glyph, 'b');
    assert_eq!(c.width(), 4);
}

#[test]
fn resize_discards_content_and_blanks_the_grid() {
    let mut c = RustConsole::new(10, 10, 8, 8);
    c.fill(0, 0, 10, 10, '#', 7);
    c.resize(20, 5, 4, 6);
    assert_eq!(c.width(), 20);
    assert_eq!(c.height(), 5);
    assert_eq!(c.font_width(), 4);
    assert_eq!(c.font_height(), 6);
    let mut count = 0;
    for y in 0..5 {
        for x in 0..20 {
            assert_eq!(c.cell(x, y), Cell { glyph: ' ', color: 0 });
            count += 1;
        }
    }
    assert_eq!(count, 100);
}

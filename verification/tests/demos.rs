use term_demos::demos::clear_screen;
use term_demos::demos::cube::{draw_cube, draw_frame, draw_line};
use term_demos::demos::numbers::{print_byte, print_sample, print_u32_decimal, print_u32_hex};
use term_demos::demos::quartic::{
    draw_graph, graph_fits, parse_i32, print_i32_decimal, print_intro, valid_i32_prefix,
};
use term_demos::fixed::{fixed_mul, fx_int, Fx};
use term_demos::mmio::term::{Colour, Pixel, PixelPos, TermOp, Terminal};
use term_demos::printer::Printer;

fn text_ops(bytes: &[u8]) -> Vec<TermOp> {
    bytes.iter().map(|&b| TermOp::Scrollprint { index: 0x31, value: b as u32 }).collect()
}

fn printed_by(f: impl FnOnce(&mut Printer, &mut Terminal)) -> Vec<TermOp> {
    let mut p = Printer::new(32, 32);
    let mut t = Terminal::new();
    f(&mut p, &mut t);
    t.take_ops()
}

fn plotted(ops: &[TermOp]) -> Vec<(u8, u8)> {
    ops.iter()
        .map(|op| match op {
            TermOp::Plotpix(p) => (p.pos.x, p.pos.y),
            other => panic!("not a pixel: {:?}", other),
        })
        .collect()
}

fn pos(x: u8, y: u8) -> PixelPos {
    PixelPos { x, y }
}

#[test]
fn decimal_numbers_print_without_leading_zeros() {
    assert_eq!(printed_by(|p, t| print_u32_decimal(p, t, 0)), text_ops(b"0"));
    assert_eq!(printed_by(|p, t| print_u32_decimal(p, t, 12345)), text_ops(b"12345"));
    assert_eq!(printed_by(|p, t| print_u32_decimal(p, t, 10)), text_ops(b"10"));
    assert_eq!(printed_by(|p, t| print_u32_decimal(p, t, u32::MAX)), text_ops(b"4294967295"));
}

#[test]
fn hex_numbers_print_eight_upper_case_digits() {
    assert_eq!(printed_by(|p, t| print_u32_hex(p, t, 0xDEADBEEF)), text_ops(b"DEADBEEF"));
    assert_eq!(printed_by(|p, t| print_u32_hex(p, t, 0x1F)), text_ops(b"0000001F"));
    assert_eq!(printed_by(|p, t| print_u32_hex(p, t, 0)), text_ops(b"00000000"));
}

#[test]
fn single_bytes_print_as_text() {
    assert_eq!(printed_by(|p, t| print_byte(p, t, b'Q')), text_ops(b"Q"));
}

#[test]
fn sample_line_shows_frame_and_random_value() {
    assert_eq!(printed_by(|p, t| print_sample(p, t, 42, 0xABC)), text_ops(b"F: 42 R: 0x00000ABC\n"));
}

#[test]
fn signed_numbers_print_with_a_minus_sign() {
    assert_eq!(printed_by(|p, t| print_i32_decimal(p, t, -8)), text_ops(b"-8"));
    assert_eq!(printed_by(|p, t| print_i32_decimal(p, t, 12)), text_ops(b"12"));
    assert_eq!(printed_by(|p, t| print_i32_decimal(p, t, i32::MIN)), text_ops(b"-2147483648"));
}

#[test]
fn integer_prefixes() {
    assert!(valid_i32_prefix(b""));
    assert!(valid_i32_prefix(b"-"));
    assert!(valid_i32_prefix(b"-12"));
    assert!(valid_i32_prefix(b"0042"));
    assert!(!valid_i32_prefix(b"1-2"));
    assert!(!valid_i32_prefix(b"12a"));
    assert!(!valid_i32_prefix(b"--"));
    assert!(!valid_i32_prefix(b" 1"));
}

#[test]
fn integers_parse_and_saturate() {
    assert_eq!(parse_i32(b""), 0);
    assert_eq!(parse_i32(b"-"), 0);
    assert_eq!(parse_i32(b"123"), 123);
    assert_eq!(parse_i32(b"-45"), -45);
    assert_eq!(parse_i32(b"007"), 7);
    assert_eq!(parse_i32(b"2147483647"), i32::MAX);
    assert_eq!(parse_i32(b"99999999999"), i32::MAX);
    assert_eq!(parse_i32(b"-99999999999"), -i32::MAX);
    assert_eq!(parse_i32(b"-2147483648"), -i32::MAX);
}

#[test]
fn printed_numbers_parse_back() {
    for v in [0, 1, -1, 9, 10, -10, 123456, -987654, i32::MAX, i32::MIN + 1] {
        let ops = printed_by(|p, t| print_i32_decimal(p, t, v));
        let bytes: Vec<u8> = ops
            .iter()
            .map(|op| match op {
                TermOp::Scrollprint { value, .. } => *value as u8,
                other => panic!("not text: {:?}", other),
            })
            .collect();
        assert!(valid_i32_prefix(&bytes));
        assert_eq!(parse_i32(&bytes), v);
    }
}

#[test]
fn lines_walk_pixel_by_pixel() {
    let mut t = Terminal::new();
    draw_line(&mut t, pos(0, 0), pos(3, 1), Colour::C2);
    let ops = t.take_ops();
    assert_eq!(plotted(&ops), vec![(0, 0), (1, 0), (2, 1), (3, 1)]);
    assert_eq!(ops[0], TermOp::Plotpix(Pixel { pos: pos(0, 0), color: Colour::C2 }));
}

#[test]
fn lines_drawn_backwards() {
    let mut t = Terminal::new();
    draw_line(&mut t, pos(3, 1), pos(0, 0), Colour::C2);
    assert_eq!(plotted(&t.take_ops()), vec![(3, 1), (2, 1), (1, 0), (0, 0)]);
}

#[test]
fn single_point_and_straight_lines() {
    let mut t = Terminal::new();
    draw_line(&mut t, pos(7, 7), pos(7, 7), Colour::C1);
    assert_eq!(plotted(&t.take_ops()), vec![(7, 7)]);
    draw_line(&mut t, pos(5, 3), pos(5, 0), Colour::C1);
    assert_eq!(plotted(&t.take_ops()), vec![(5, 3), (5, 2), (5, 1), (5, 0)]);
    draw_line(&mut t, pos(0, 255), pos(255, 0), Colour::C1);
    let diagonal = plotted(&t.take_ops());
    assert_eq!(diagonal.len(), 256);
    assert!(diagonal.iter().enumerate().all(|(i, &(x, y))| x as usize == i && y as usize == 255 - i));
}

#[test]
fn line_pixels_touch_and_count_the_longer_side() {
    let mut t = Terminal::new();
    draw_line(&mut t, pos(10, 200), pos(250, 3), Colour::C1);
    let pts = plotted(&t.take_ops());
    assert_eq!(pts.len(), 241);
    assert_eq!(pts[0], (10, 200));
    assert_eq!(*pts.last().unwrap(), (250, 3));
    for w in pts.windows(2) {
        let dx = (w[1].0 as i32 - w[0].0 as i32).abs();
        let dy = (w[1].1 as i32 - w[0].1 as i32).abs();
        assert!(dx <= 1 && dy <= 1 && (dx, dy) != (0, 0));
    }
}

#[test]
fn clearing_the_screen() {
    let mut t = Terminal::new();
    clear_screen(&mut t);
    let ops = t.take_ops();
    assert_eq!(ops.len(), 33);
    assert_eq!(ops[0], TermOp::Cursor(0));
    assert!(ops[1..].iter().all(|op| *op == TermOp::Scrollprint { index: 8, value: 32 }));
}

#[test]
fn cube_edges_join_corners() {
    let mut t = Terminal::new();
    let points = [
        pos(0, 0),
        pos(2, 0),
        pos(0, 2),
        pos(2, 2),
        pos(1, 1),
        pos(3, 1),
        pos(1, 3),
        pos(3, 3),
    ];
    draw_cube(&mut t, points, Colour::C11);
    let pts = plotted(&t.take_ops());
    assert_eq!(pts.len(), 8 * 3 + 4 * 2);
    assert_eq!(&pts[0..3], &[(0, 0), (1, 0), (2, 0)]);
    assert_eq!(&pts[24..26], &[(0, 0), (1, 1)]);
    assert_eq!(&pts[30..32], &[(2, 2), (3, 3)]);
}

#[test]
fn first_cube_frame() {
    let mut t = Terminal::new();
    draw_frame(&mut t, 0);
    let ops = t.take_ops();
    assert_eq!(ops.len(), 33 + 184);
    assert_eq!(ops[0], TermOp::Cursor(0));
    assert_eq!(ops[33], TermOp::Plotpix(Pixel { pos: pos(116, 140), color: Colour::C11 }));
    let pts = plotted(&ops[33..]);
    assert_eq!(pts[24], (140, 140));
    assert!(pts.contains(&(121, 135)));
    assert!(pts.contains(&(135, 121)));
}

#[test]
fn cube_frames_turn_and_repeat() {
    let frame = |angle: usize| {
        let mut t = Terminal::new();
        draw_frame(&mut t, angle);
        t.take_ops()
    };
    assert_ne!(frame(5), frame(0));
    assert_eq!(frame(128), frame(0));
}

#[test]
fn fixed_point_arithmetic() {
    assert_eq!(fx_int(1).bits, 256);
    assert_eq!(fx_int(-3).bits, -768);
    assert_eq!(fixed_mul(fx_int(2), fx_int(3)).bits, 1536);
    assert_eq!(fixed_mul(Fx { bits: -1 }, Fx { bits: 1 }).bits, -1);
    assert_eq!(fixed_mul(Fx { bits: 128 }, Fx { bits: 128 }).bits, 64);
    assert_eq!(fx_int(2).add(fx_int(3)).bits, 1280);
    assert_eq!(fx_int(2).sub(fx_int(3)).bits, -256);
}

#[test]
fn graph_range_check() {
    assert!(graph_fits(0, 0, 0, 0, 0));
    assert!(graph_fits(1, 0, 0, 0, 0));
    assert!(graph_fits(0, 0, 0, 1, -3));
    assert!(!graph_fits(100, 0, 0, 0, 0));
    assert!(!graph_fits(0x40_0000, 0, 0, 0, 0));
}

#[test]
fn flat_graph_lies_on_the_x_axis() {
    let mut t = Terminal::new();
    draw_graph(&mut t, 0, 0, 0, 0, 0);
    let ops = t.take_ops();
    assert_eq!(ops.len(), 33 + 512 + 1 + 255 * 2);
    let axes = plotted(&ops[33..33 + 512]);
    assert_eq!(axes[0], (0, 153));
    assert_eq!(axes[255], (255, 153));
    assert_eq!(axes[256], (127, 0));
    assert_eq!(axes[511], (127, 255));
    let curve = plotted(&ops[33 + 512..]);
    assert!(curve.iter().all(|&(_, y)| y == 153));
    assert_eq!(ops[33 + 512], TermOp::Plotpix(Pixel { pos: pos(0, 153), color: Colour::C10 }));
}

#[test]
fn line_graph_crosses_the_origin() {
    let mut t = Terminal::new();
    draw_graph(&mut t, 0, 0, 0, 1, 0);
    let ops = t.take_ops();
    let curve = plotted(&ops[33 + 512..]);
    assert_eq!(curve[0], (0, 255));
    assert!(curve.contains(&(127, 153)) || curve.contains(&(128, 153)));
}

#[test]
fn introduction_text() {
    let mut p = Printer::new(32, 32);
    let mut t = Terminal::new();
    p.set_cursor(&mut t, 5, 5);
    t.take_ops();
    print_intro(&mut p, &mut t);
    let ops = t.take_ops();
    assert_eq!(ops[0], TermOp::Cursor(0));
    let mut expected = b"quartic plotter\n\ny = ax^4 + bx^3 + cx^2 + dx + e\n\nplot bounds:\nx: -8 to 8\ny: -8 to 12\n\npress any key after plotted\n\n".to_vec();
    expected.extend_from_slice(b"out of bounds y will be shown\nfor progress\n\n");
    assert_eq!(ops[33..].to_vec(), text_ops(&expected));
    assert_eq!((p.cursor_x(), p.cursor_y()), (0, 13));
}

#[test]
fn sample_line_on_a_printer_without_columns() {
    let mut p = Printer::new(0, 2);
    let mut t = Terminal::new();
    print_sample(&mut p, &mut t, 7, 2);
    assert_eq!(t.take_ops(), text_ops(b"F: 7 R: 0x00000002\n"));
    assert_eq!((p.cursor_x(), p.cursor_y()), (0, 1));
}

#[test]
fn introduction_on_a_printer_without_columns() {
    let mut p = Printer::new(0, 3);
    let mut t = Terminal::new();
    print_intro(&mut p, &mut t);
    let ops = t.take_ops();
    assert_eq!(ops[0], TermOp::Cursor(0));
    let mut expected = b"quartic plotter\n\ny = ax^4 + bx^3 + cx^2 + dx + e\n\nplot bounds:\nx: -8 to 8\ny: -8 to 12\n\npress any key after plotted\n\n".to_vec();
    expected.extend_from_slice(b"\nout\nof\nbounds\ny\nwill\nbe\nshown\nfor\nprogress\n\n");
    assert_eq!(ops[4..].to_vec(), text_ops(&expected));
    assert_eq!((p.cursor_x(), p.cursor_y()), (0, 2));
}

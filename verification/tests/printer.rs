use term_demos::demos::quartic::valid_i32_prefix;
use term_demos::mmio::term::{Colour, TermOp, Terminal};
use term_demos::printer::{CursorBlink, LineEdit, Printer};

fn text_ops(bytes: &[u8]) -> Vec<TermOp> {
    bytes.iter().map(|&b| TermOp::Scrollprint { index: 0x31, value: b as u32 }).collect()
}

#[test]
fn new_printer_is_home_and_white_on_black() {
    let p = Printer::new(32, 32);
    assert_eq!(p.cursor_x(), 0);
    assert_eq!(p.cursor_y(), 0);
    assert_eq!(p.fg(), Colour::C15);
    assert_eq!(p.bg(), Colour::C0);
}

#[test]
fn init_sets_up_the_terminal() {
    let p = Printer::new(32, 32);
    let mut t = Terminal::new();
    p.init(&mut t);
    assert_eq!(
        t.take_ops(),
        vec![
            TermOp::DiscardInput,
            TermOp::Colour(15),
            TermOp::Hrange(31 << 5),
            TermOp::Vrange(31 << 5),
            TermOp::Cursor(0),
            TermOp::Nlchar(10),
            TermOp::Scrollmask(u32::MAX),
        ]
    );
}

#[test]
fn print_wraps_at_the_width() {
    let mut p = Printer::new(4, 3);
    let mut t = Terminal::new();
    p.print(&mut t, "abcde");
    assert_eq!(t.take_ops(), text_ops(b"abcde"));
    assert_eq!((p.cursor_x(), p.cursor_y()), (1, 1));
}

#[test]
fn newline_returns_to_column_zero() {
    let mut p = Printer::new(10, 3);
    let mut t = Terminal::new();
    p.print(&mut t, "ab\ncd");
    assert_eq!((p.cursor_x(), p.cursor_y()), (2, 1));
    p.newline(&mut t);
    assert_eq!((p.cursor_x(), p.cursor_y()), (0, 2));
    assert_eq!(t.take_ops(), text_ops(b"ab\ncd\n"));
}

#[test]
fn last_row_stays_the_last() {
    let mut p = Printer::new(4, 2);
    let mut t = Terminal::new();
    p.set_cursor(&mut t, 2, 1);
    p.newline(&mut t);
    assert_eq!((p.cursor_x(), p.cursor_y()), (0, 1));
}

#[test]
fn long_text_keeps_the_cursor_on_screen() {
    let mut p = Printer::new(5, 2);
    let mut t = Terminal::new();
    p.print(&mut t, "the quick brown fox jumps over the lazy dog\nand again and again");
    assert!(p.cursor_x() <= 5);
    assert!(p.cursor_y() < 2);
}

#[test]
fn clear_homes_and_blanks_each_row() {
    let mut p = Printer::new(4, 3);
    let mut t = Terminal::new();
    p.set_cursor(&mut t, 2, 2);
    t.take_ops();
    p.clear(&mut t);
    assert_eq!((p.cursor_x(), p.cursor_y()), (0, 0));
    let blank = TermOp::Scrollprint { index: 8, value: 32 };
    assert_eq!(t.take_ops(), vec![TermOp::Cursor(0), blank, blank, blank]);
}

#[test]
fn backspace_steps_back_and_blanks() {
    let mut p = Printer::new(10, 5);
    let mut t = Terminal::new();
    p.print(&mut t, "ab");
    t.take_ops();
    assert!(p.backspace(&mut t));
    assert_eq!((p.cursor_x(), p.cursor_y()), (1, 0));
    assert_eq!(
        t.take_ops(),
        vec![TermOp::Cursor(1), TermOp::Scrollprint { index: 0x31, value: 32 }, TermOp::Cursor(1)]
    );
}

#[test]
fn backspace_at_line_start_does_nothing() {
    let mut p = Printer::new(10, 5);
    let mut t = Terminal::new();
    assert!(!p.backspace(&mut t));
    assert!(t.take_ops().is_empty());
    assert_eq!(p.cursor_x(), 0);
}

#[test]
fn colours_and_cursor_are_set_on_the_terminal() {
    let mut p = Printer::new(10, 5);
    let mut t = Terminal::new();
    p.set_colour(&mut t, Colour::C2, Colour::C9);
    p.set_cursor(&mut t, 3, 4);
    assert_eq!(p.fg(), Colour::C2);
    assert_eq!(p.bg(), Colour::C9);
    assert_eq!((p.cursor_x(), p.cursor_y()), (3, 4));
    assert_eq!(t.take_ops(), vec![TermOp::Colour(2 | (9 << 4)), TermOp::Cursor(3 | (4 << 5))]);
}

#[test]
fn words_that_do_not_fit_start_a_new_line() {
    let mut p = Printer::new(8, 5);
    let mut t = Terminal::new();
    p.print_with_breaks(&mut t, "hello world foo");
    assert_eq!(t.take_ops(), text_ops(b"hello\nworld\nfoo"));
    assert_eq!((p.cursor_x(), p.cursor_y()), (3, 2));
}

#[test]
fn words_that_fit_keep_their_space() {
    let mut p = Printer::new(10, 5);
    let mut t = Terminal::new();
    p.print_with_breaks(&mut t, "hi there");
    assert_eq!(t.take_ops(), text_ops(b"hi there"));
    assert_eq!((p.cursor_x(), p.cursor_y()), (8, 0));
}

#[test]
fn a_word_longer_than_the_line_is_started_on_a_new_line() {
    let mut p = Printer::new(4, 5);
    let mut t = Terminal::new();
    p.print_with_breaks(&mut t, "abcdef");
    assert_eq!(t.take_ops(), text_ops(b"\nabcdef"));
    assert_eq!((p.cursor_x(), p.cursor_y()), (2, 2));
}

#[test]
fn repeated_spaces_give_empty_words() {
    let mut p = Printer::new(20, 5);
    let mut t = Terminal::new();
    p.print_with_breaks(&mut t, "a  b");
    assert_eq!(t.take_ops(), text_ops(b"a  b"));
}

#[test]
fn line_editing_accepts_checks_and_erases() {
    let mut p = Printer::new(32, 32);
    let mut t = Terminal::new();
    let mut buffer = [0u8; 3];
    let check = valid_i32_prefix;
    assert_eq!(p.edit_line(&mut t, &mut buffer, 0, b'-', &check), LineEdit::Editing(1));
    assert_eq!(p.edit_line(&mut t, &mut buffer, 1, b'4', &check), LineEdit::Editing(2));
    assert_eq!(t.take_ops(), text_ops(b"-4"));
    assert_eq!(p.edit_line(&mut t, &mut buffer, 2, b'x', &check), LineEdit::Editing(2));
    assert_eq!(buffer[2], b'x');
    assert!(t.take_ops().is_empty());
    assert_eq!(p.edit_line(&mut t, &mut buffer, 2, 127, &check), LineEdit::Editing(1));
    assert_eq!(p.cursor_x(), 1);
    assert_eq!(t.take_ops().len(), 3);
    assert_eq!(p.edit_line(&mut t, &mut buffer, 1, b'\r', &check), LineEdit::Done(1));
    assert_eq!(t.take_ops(), text_ops(b"\n"));
    assert_eq!(&buffer[..1], b"-");
}

#[test]
fn line_editing_ignores_keys_when_full() {
    let mut p = Printer::new(32, 32);
    let mut t = Terminal::new();
    let mut buffer = [b'1'; 2];
    let check = valid_i32_prefix;
    assert_eq!(p.edit_line(&mut t, &mut buffer, 2, b'3', &check), LineEdit::Editing(2));
    assert_eq!(buffer, [b'1', b'1']);
    assert!(t.take_ops().is_empty());
    assert_eq!(p.edit_line(&mut t, &mut buffer, 0, 8, &check), LineEdit::Editing(0));
    assert!(t.take_ops().is_empty());
}

#[test]
fn blinking_cursor_alternates_until_a_key() {
    let mut p = Printer::new(32, 32);
    let mut t = Terminal::new();
    p.set_cursor(&mut t, 2, 3);
    t.take_ops();
    let mut blink = CursorBlink { fg: Colour::C15, bg: Colour::C0 };
    assert!(!p.blink_step(&mut t, &mut blink, 0));
    assert_eq!(
        t.take_ops(),
        vec![
            TermOp::Colour(15),
            TermOp::Cursor(2 | (3 << 5)),
            TermOp::Scrollprint { index: 1, value: 32 },
        ]
    );
    assert_eq!(blink, CursorBlink { fg: Colour::C0, bg: Colour::C15 });
    assert!(!p.blink_step(&mut t, &mut blink, 0));
    assert_eq!(t.take_ops()[0], TermOp::Colour(15 << 4));
    assert!(p.blink_step(&mut t, &mut blink, 65));
    assert_eq!(
        t.take_ops(),
        vec![
            TermOp::Colour(15),
            TermOp::Cursor(2 | (3 << 5)),
            TermOp::Scrollprint { index: 1, value: 32 },
            TermOp::Cursor(2 | (3 << 5)),
        ]
    );
    assert_eq!(blink, CursorBlink { fg: Colour::C15, bg: Colour::C0 });
}

#[test]
fn backspace_after_a_byte_returns_the_cursor() {
    let mut p = Printer::new(10, 5);
    let mut t = Terminal::new();
    p.set_cursor(&mut t, 4, 2);
    t.take_ops();
    p.print(&mut t, "z");
    assert!(p.backspace(&mut t));
    assert_eq!((p.cursor_x(), p.cursor_y()), (4, 2));
    let at = TermOp::Cursor(4 | (2 << 5));
    assert_eq!(
        t.take_ops(),
        vec![
            TermOp::Scrollprint { index: 0x31, value: b'z' as u32 },
            at,
            TermOp::Scrollprint { index: 0x31, value: 32 },
            at,
        ]
    );
}

#[test]
fn text_that_fits_the_row_wraps_as_printed() {
    for (x, text) in [(0u8, "ab cd"), (3, " a  b"), (2, "xyz w"), (9, "")] {
        let mut wrapping = Printer::new(10, 4);
        let mut plain = Printer::new(10, 4);
        let mut t1 = Terminal::new();
        let mut t2 = Terminal::new();
        wrapping.set_cursor(&mut t1, x, 1);
        plain.set_cursor(&mut t2, x, 1);
        wrapping.print_with_breaks(&mut t1, text);
        plain.print(&mut t2, text);
        assert_eq!(t1.take_ops(), t2.take_ops());
        assert_eq!((wrapping.cursor_x(), wrapping.cursor_y()), (plain.cursor_x(), plain.cursor_y()));
    }
}

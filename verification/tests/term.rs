use term_demos::mmio::term::{
    CellColour, Colour, CursorPosition, Pixel, PixelPos, Range, ScrollprintFlags, TermOp, Terminal,
};

#[test]
fn range_packs_first_and_last() {
    assert_eq!(Range::new(0, 31).bits(), 31 << 5);
    assert_eq!(Range::new(3, 5).bits(), 3 | (5 << 5));
    assert_eq!(Range::new(0, 0).bits(), 0);
}

#[test]
fn range_fields_read_back() {
    let r = Range::new(17, 200).bits();
    assert_eq!(r & 31, 17);
    assert_eq!(r >> 5, 200);
}

#[test]
fn range_default_is_zero() {
    assert_eq!(Range::default().bits(), 0);
}

#[test]
fn cell_colour_packs_foreground_low() {
    assert_eq!(CellColour::new(Colour::C15, Colour::C0).bits(), 15);
    assert_eq!(CellColour::new(Colour::C1, Colour::C2).bits(), 1 | (2 << 4));
    assert_eq!(CellColour::new(Colour::C15, Colour::C15).bits(), 0xFF);
}

#[test]
fn colour_numbers() {
    assert_eq!(Colour::C0.number(), 0);
    assert_eq!(Colour::C8.number(), 8);
    assert_eq!(Colour::C15.number(), 15);
    assert_eq!(Colour::default(), Colour::C0);
}

#[test]
fn cursor_position_packs_column_low() {
    assert_eq!(CursorPosition::new(4, 7).bits(), 4 | (7 << 5));
    assert_eq!(CursorPosition::new(31, 31).bits(), 1023);
}

#[test]
fn scrollprint_flag_bits() {
    assert_eq!(ScrollprintFlags::pos_in_data().bits(), 64);
    assert_eq!(ScrollprintFlags::enable_nlchar().bits(), 32);
    assert_eq!(ScrollprintFlags::term_mode_scroll().bits(), 16);
    assert_eq!(ScrollprintFlags::enable_scrollmask().bits(), 8);
    assert_eq!(ScrollprintFlags::column_oriented().bits(), 4);
    assert_eq!(ScrollprintFlags::colour_in_data().bits(), 2);
    assert_eq!(ScrollprintFlags::term_mode().bits(), 1);
    assert_eq!(ScrollprintFlags::simple_terminal().bits(), 0x31);
}

#[test]
fn scrollprint_flags_combine() {
    let both = ScrollprintFlags::term_mode().bitor(ScrollprintFlags::pos_in_data());
    assert_eq!(both.bits(), 65);
    let mut flags = ScrollprintFlags::enable_nlchar();
    flags.bitor_assign(ScrollprintFlags::term_mode_scroll());
    flags.bitor_assign(ScrollprintFlags::term_mode());
    assert_eq!(flags, ScrollprintFlags::simple_terminal());
}

#[test]
fn terminal_records_writes_in_order() {
    let mut t = Terminal::new();
    t.reset_keyboard();
    t.set_horizontal_range(0, 31);
    t.set_vertical_range(1, 2);
    t.set_cursor_position(3, 4);
    t.set_cell_colour(Colour::C2, Colour::C3);
    t.set_newline_char(b'\n');
    t.set_scrollmask(u32::MAX);
    t.scrollprint(ScrollprintFlags::term_mode(), 0x1234);
    t.print_byte(ScrollprintFlags::simple_terminal(), b'x');
    let pixel = Pixel { pos: PixelPos { x: 9, y: 10 }, color: Colour::C4 };
    t.plotpix(pixel);
    let ops = t.take_ops();
    assert_eq!(
        ops,
        vec![
            TermOp::DiscardInput,
            TermOp::Hrange(31 << 5),
            TermOp::Vrange(1 | (2 << 5)),
            TermOp::Cursor(3 | (4 << 5)),
            TermOp::Colour(2 | (3 << 4)),
            TermOp::Nlchar(10),
            TermOp::Scrollmask(u32::MAX),
            TermOp::Scrollprint { index: 1, value: 0x1234 },
            TermOp::Scrollprint { index: 0x31, value: b'x' as u32 },
            TermOp::Plotpix(pixel),
        ]
    );
    assert!(t.take_ops().is_empty());
}

#[test]
fn pixel_defaults() {
    assert_eq!(PixelPos::default(), PixelPos { x: 0, y: 0 });
    assert_eq!(Pixel::default().color, Colour::C0);
    assert_eq!(CellColour::default().bits(), 0);
    assert_eq!(CursorPosition::default().bits(), 0);
    assert_eq!(ScrollprintFlags::default().bits(), 0);
}

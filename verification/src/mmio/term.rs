use vstd::prelude::*;

verus! {

/// The layout shared by the range and cursor registers: `low` in bits 0..5,
/// `high` shifted up by five bits.
pub open spec fn pack_pair(low: u8, high: u8) -> u32 {
    (low as u32) | ((high as u32) << 5u32)
}

/// The layout of the cell-colour register: foreground in the low nibble,
/// background shifted up by four bits.
pub open spec fn pack_colours(foreground: Colour, background: Colour) -> u32 {
    foreground.index() | (background.index() << 4u32)
}

/// When the low half fits its five bits, both halves can be read back.
pub proof fn lemma_pack_pair_fields(low: u8, high: u8)
    requires
        low < 32,
    ensures
        pack_pair(low, high) & 31 == low as u32,
        pack_pair(low, high) >> 5u32 == high as u32,
{
    let l = low as u32;
    let h = high as u32;
    assert((l | (h << 5u32)) & 31 == l && (l | (h << 5u32)) >> 5u32 == h) by (bit_vector)
        requires
            l < 32,
            h < 256,
    ;
}

/// Both colours can be read back from the packed cell colour.
pub proof fn lemma_pack_colours_fields(foreground: Colour, background: Colour)
    ensures
        pack_colours(foreground, background) & 15 == foreground.index(),
        pack_colours(foreground, background) >> 4u32 == background.index(),
{
    let f = foreground.index();
    let b = background.index();
    assert((f | (b << 4u32)) & 15 == f && (f | (b << 4u32)) >> 4u32 == b) by (bit_vector)
        requires
            f < 16,
            b < 16,
    ;
}

/// A row or column range of the terminal, as written to its range registers.
#[derive(Clone, Copy, PartialEq, Eq, Structural, Hash, Debug)]
pub struct Range(u32);

impl View for Range {
    type V = u32;

    closed spec fn view(&self) -> u32 {
        self.0
    }
}

impl Range {
    pub fn new(first: u8, last: u8) -> (r: Self)
        ensures
            r@ == pack_pair(first, last),
    {
        Range((first as u32) | ((last as u32) << 5))
    }

    pub fn bits(self) -> (r: u32)
        ensures
            r == self@,
    {
        self.0
    }
}

impl Default for Range {
    fn default() -> (r: Self)
        ensures
            r@ == 0,
    {
        Range(0)
    }
}

/// The sixteen palette colours of the terminal.
#[derive(Clone, Copy, PartialEq, Eq, Structural, Hash, Debug)]
pub enum Colour {
    C0,
    C1,
    C2,
    C3,
    C4,
    C5,
    C6,
    C7,
    C8,
    C9,
    C10,
    C11,
    C12,
    C13,
    C14,
    C15,
}

impl Colour {
    /// The palette number of the colour.
    pub open spec fn index(self) -> u32 {
        match self {
            Colour::C0 => 0,
            Colour::C1 => 1,
            Colour::C2 => 2,
            Colour::C3 => 3,
            Colour::C4 => 4,
            Colour::C5 => 5,
            Colour::C6 => 6,
            Colour::C7 => 7,
            Colour::C8 => 8,
            Colour::C9 => 9,
            Colour::C10 => 10,
            Colour::C11 => 11,
            Colour::C12 => 12,
            Colour::C13 => 13,
            Colour::C14 => 14,
            Colour::C15 => 15,
        }
    }

    /// The palette number of the colour, as the hardware expects it.
    pub fn number(self) -> (r: u32)
        ensures
            r == self.index(),
            r < 16,
    {
        match self {
            Colour::C0 => 0,
            Colour::C1 => 1,
            Colour::C2 => 2,
            Colour::C3 => 3,
            Colour::C4 => 4,
            Colour::C5 => 5,
            Colour::C6 => 6,
            Colour::C7 => 7,
            Colour::C8 => 8,
            Colour::C9 => 9,
            Colour::C10 => 10,
            Colour::C11 => 11,
            Colour::C12 => 12,
            Colour::C13 => 13,
            Colour::C14 => 14,
            Colour::C15 => 15,
        }
    }
}

impl Default for Colour {
    fn default() -> (r: Self)
        ensures
            r == Colour::C0,
    {
        Colour::C0
    }
}

/// A foreground/background pair, as written to the colour register.
#[derive(Clone, Copy, PartialEq, Eq, Structural, Hash, Debug)]
pub struct CellColour(u32);

impl View for CellColour {
    type V = u32;

    closed spec fn view(&self) -> u32 {
        self.0
    }
}

impl CellColour {
    pub fn new(foreground: Colour, background: Colour) -> (r: Self)
        ensures
            r@ == pack_colours(foreground, background),
    {
        CellColour(foreground.number() | (background.number() << 4))
    }

    pub fn bits(self) -> (r: u32)
        ensures
            r == self@,
    {
        self.0
    }
}

impl Default for CellColour {
    fn default() -> (r: Self)
        ensures
            r@ == 0,
    {
        CellColour(0)
    }
}

/// A column/row pair, as written to the cursor register.
#[derive(Clone, Copy, PartialEq, Eq, Structural, Hash, Debug)]
pub struct CursorPosition(u32);

impl View for CursorPosition {
    type V = u32;

    closed spec fn view(&self) -> u32 {
        self.0
    }
}

impl CursorPosition {
    pub fn new(column: u8, row: u8) -> (r: Self)
        ensures
            r@ == pack_pair(column, row),
    {
        CursorPosition((column as u32) | ((row as u32) << 5))
    }

    pub fn bits(self) -> (r: u32)
        ensures
            r == self@,
    {
        self.0
    }
}

impl Default for CursorPosition {
    fn default() -> (r: Self)
        ensures
            r@ == 0,
    {
        CursorPosition(0)
    }
}

/// A position on the 256 x 256 pixel plane.
#[derive(Clone, Copy, PartialEq, Eq, Structural, Hash, Debug)]
pub struct PixelPos {
    pub x: u8,
    pub y: u8,
}

impl Default for PixelPos {
    fn default() -> (r: Self)
        ensures
            r.x == 0 && r.y == 0,
    {
        PixelPos { x: 0, y: 0 }
    }
}

/// A coloured pixel, as written to the pixel-plot register.
#[derive(Clone, Copy, PartialEq, Eq, Structural, Hash, Debug)]
pub struct Pixel {
    pub pos: PixelPos,
    pub color: Colour,
}

impl Default for Pixel {
    fn default() -> (r: Self)
        ensures
            r.pos.x == 0 && r.pos.y == 0 && r.color == Colour::C0,
    {
        Pixel { pos: PixelPos { x: 0, y: 0 }, color: Colour::C0 }
    }
}

/// The mode bits of a scroll-print write; they select one of the 128
/// scroll-print registers.
#[derive(Clone, Copy, PartialEq, Eq, Structural, Hash, Debug)]
pub struct ScrollprintFlags(u32);

impl View for ScrollprintFlags {
    type V = u32;

    closed spec fn view(&self) -> u32 {
        self.0
    }
}

impl ScrollprintFlags {
    #[verifier::type_invariant]
    spec fn fits_register_bank(self) -> bool {
        self.0 < 128
    }

    pub fn pos_in_data() -> (r: Self)
        ensures
            r@ == 64,
    {
        assert((1u32 << 6u32) == 64u32) by (bit_vector);
        ScrollprintFlags(1 << 6)
    }

    pub fn enable_nlchar() -> (r: Self)
        ensures
            r@ == 32,
    {
        assert((1u32 << 5u32) == 32u32) by (bit_vector);
        ScrollprintFlags(1 << 5)
    }

    pub fn term_mode_scroll() -> (r: Self)
        ensures
            r@ == 16,
    {
        assert((1u32 << 4u32) == 16u32) by (bit_vector);
        ScrollprintFlags(1 << 4)
    }

    pub fn enable_scrollmask() -> (r: Self)
        ensures
            r@ == 8,
    {
        assert((1u32 << 3u32) == 8u32) by (bit_vector);
        ScrollprintFlags(1 << 3)
    }

    pub fn column_oriented() -> (r: Self)
        ensures
            r@ == 4,
    {
        assert((1u32 << 2u32) == 4u32) by (bit_vector);
        ScrollprintFlags(1 << 2)
    }

    pub fn colour_in_data() -> (r: Self)
        ensures
            r@ == 2,
    {
        assert((1u32 << 1u32) == 2u32) by (bit_vector);
        ScrollprintFlags(1 << 1)
    }

    pub fn term_mode() -> (r: Self)
        ensures
            r@ == 1,
    {
        assert((1u32 << 0u32) == 1u32) by (bit_vector);
        ScrollprintFlags(1 << 0)
    }

    /// Newline handling, scrolling and terminal mode together.
    pub fn simple_terminal() -> (r: Self)
        ensures
            r@ == 0x31,
            r@ == Self::enable_nlchar_bits() | Self::term_mode_scroll_bits() | Self::term_mode_bits(),
    {
        let bits = Self::enable_nlchar().bits() | Self::term_mode_scroll().bits()
            | Self::term_mode().bits();
        assert((32u32 | 16u32 | 1u32) == 0x31u32) by (bit_vector);
        ScrollprintFlags(bits)
    }

    pub open spec fn enable_nlchar_bits() -> u32 {
        32
    }

    pub open spec fn term_mode_scroll_bits() -> u32 {
        16
    }

    pub open spec fn term_mode_bits() -> u32 {
        1
    }

    pub fn bits(self) -> (r: u32)
        ensures
            r == self@,
            r < 128,
    {
        proof {
            use_type_invariant(&self);
        }
        self.0
    }

    /// Both sets of flags together.
    pub fn bitor(self, rhs: Self) -> (r: Self)
        ensures
            r@ == self@ | rhs@,
    {
        let a = self.bits();
        let b = rhs.bits();
        assert((a | b) < 128) by (bit_vector)
            requires
                a < 128,
                b < 128,
        ;
        ScrollprintFlags(a | b)
    }

    /// Adds the flags of `rhs` to these.
    pub fn bitor_assign(&mut self, rhs: Self)
        ensures
            final(self)@ == old(self)@ | rhs@,
    {
        *self = self.bitor(rhs);
    }
}

impl Default for ScrollprintFlags {
    fn default() -> (r: Self)
        ensures
            r@ == 0,
    {
        ScrollprintFlags(0)
    }
}

/// One write to the terminal's registers: the register, and the bits
/// written to it.
#[derive(Clone, Copy, PartialEq, Eq, Structural, Hash, Debug)]
pub enum TermOp {
    /// A read of the input register whose value is discarded.
    DiscardInput,
    Hrange(u32),
    Vrange(u32),
    Cursor(u32),
    Nlchar(u32),
    Colour(u32),
    Scrollmask(u32),
    Plotpix(Pixel),
    /// A write of `value` to the scroll-print register selected by `index`.
    Scrollprint { index: u32, value: u32 },
}

/// The memory-mapped character terminal, seen as the sequence of register
/// writes issued to it, oldest first.
pub struct Terminal {
    ops: Vec<TermOp>,
}

impl View for Terminal {
    type V = Seq<TermOp>;

    closed spec fn view(&self) -> Seq<TermOp> {
        self.ops@
    }
}

impl Terminal {
    /// A terminal to which nothing has been written yet.
    pub fn new() -> (r: Self)
        ensures
            r@ == Seq::<TermOp>::empty(),
    {
        Terminal { ops: Vec::new() }
    }

    /// Hands over the writes issued so far, oldest first, and forgets them.
    pub fn take_ops(&mut self) -> (r: Vec<TermOp>)
        ensures
            r@ == old(self)@,
            final(self)@ == Seq::<TermOp>::empty(),
    {
        let mut taken: Vec<TermOp> = Vec::new();
        std::mem::swap(&mut taken, &mut self.ops);
        taken
    }

    fn issue(&mut self, op: TermOp)
        ensures
            final(self)@ == old(self)@.push(op),
    {
        self.ops.push(op);
    }

    pub fn set_horizontal_range(&mut self, first: u8, last: u8)
        ensures
            final(self)@ == old(self)@.push(TermOp::Hrange(pack_pair(first, last))),
    {
        self.issue(TermOp::Hrange(Range::new(first, last).bits()));
    }

    pub fn set_vertical_range(&mut self, first: u8, last: u8)
        ensures
            final(self)@ == old(self)@.push(TermOp::Vrange(pack_pair(first, last))),
    {
        self.issue(TermOp::Vrange(Range::new(first, last).bits()));
    }

    pub fn set_cursor_position(&mut self, column: u8, row: u8)
        ensures
            final(self)@ == old(self)@.push(TermOp::Cursor(pack_pair(column, row))),
    {
        self.issue(TermOp::Cursor(CursorPosition::new(column, row).bits()));
    }

    pub fn set_cell_colour(&mut self, foreground: Colour, background: Colour)
        ensures
            final(self)@ == old(self)@.push(TermOp::Colour(pack_colours(foreground, background))),
    {
        self.issue(TermOp::Colour(CellColour::new(foreground, background).bits()));
    }

    pub fn set_newline_char(&mut self, value: u8)
        ensures
            final(self)@ == old(self)@.push(TermOp::Nlchar(value as u32)),
    {
        self.issue(TermOp::Nlchar(value as u32));
    }

    pub fn set_scrollmask(&mut self, value: u32)
        ensures
            final(self)@ == old(self)@.push(TermOp::Scrollmask(value)),
    {
        self.issue(TermOp::Scrollmask(value));
    }

    pub fn scrollprint(&mut self, flags: ScrollprintFlags, value: u32)
        ensures
            final(self)@ == old(self)@.push(TermOp::Scrollprint { index: flags@, value }),
    {
        self.issue(TermOp::Scrollprint { index: flags.bits(), value });
    }

    pub fn print_byte(&mut self, flags: ScrollprintFlags, value: u8)
        ensures
            final(self)@ == old(self)@.push(
                TermOp::Scrollprint { index: flags@, value: value as u32 },
            ),
    {
        self.scrollprint(flags, value as u32);
    }

    pub fn plotpix(&mut self, pixel: Pixel)
        ensures
            final(self)@ == old(self)@.push(TermOp::Plotpix(pixel)),
    {
        self.issue(TermOp::Plotpix(pixel));
    }

    /// Reads the input register once and drops what it held.
    pub fn reset_keyboard(&mut self)
        ensures
            final(self)@ == old(self)@.push(TermOp::DiscardInput),
    {
        self.issue(TermOp::DiscardInput);
    }
}

} // verus!

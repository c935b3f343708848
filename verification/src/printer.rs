use vstd::prelude::*;

use vstd::string::StringSliceAdditionalSpecFns;

use crate::mmio::term::{pack_colours, pack_pair, Colour, ScrollprintFlags, TermOp, Terminal};

verus! {

/// The scroll-print register that plain text goes through: newline handling,
/// scrolling and terminal mode.
pub open spec fn text_register() -> u32 {
    0x31
}

/// The writes that print `bytes` through the register `index`, one per byte.
pub open spec fn text_ops(index: u32, bytes: Seq<u8>) -> Seq<TermOp> {
    Seq::new(bytes.len(), |i: int| TermOp::Scrollprint { index, value: bytes[i] as u32 })
}

/// The writes that print `bytes` as plain text.
pub open spec fn printed(bytes: Seq<u8>) -> Seq<TermOp> {
    text_ops(text_register(), bytes)
}

/// The length of the first word of `s`: the bytes before its first space.
pub open spec fn first_word_len(s: Seq<u8>) -> nat
    decreases s.len(),
{
    if s.len() == 0 || s[0] == 32 {
        0
    } else {
        1 + first_word_len(s.drop_first())
    }
}

/// `s` cut at every space, as `str::split(' ')` cuts it: `n` spaces give
/// `n + 1` words, some of which may be empty.
pub open spec fn split_words(s: Seq<u8>) -> Seq<Seq<u8>>
    decreases s.len(),
{
    let n = first_word_len(s);
    if n >= s.len() {
        seq![s]
    } else {
        seq![s.take(n as int)] + split_words(s.skip(n + 1int))
    }
}

/// Where word wrapping stands: the printer, whether the next word starts a
/// line, and the bytes put so far.
pub struct WrapState {
    pub printer: PrinterView,
    pub first: bool,
    pub out: Seq<u8>,
}

/// The word, with the space that separates it from the previous one, would
/// run past the end of the line.
pub open spec fn breaks_before(st: WrapState, word: Seq<u8>) -> bool {
    st.printer.cursor_x + (if st.first {
        0int
    } else {
        1int
    }) + word.len() > st.printer.width
}

/// The bytes put for one word: a newline when the word does not fit, else a
/// space unless the word starts a line; then the word itself.
pub open spec fn step_bytes(st: WrapState, word: Seq<u8>) -> Seq<u8> {
    let lead: Seq<u8> = if breaks_before(st, word) {
        seq![10u8]
    } else if st.first {
        Seq::empty()
    } else {
        seq![32u8]
    };
    lead + word
}

/// Word wrapping after one more word. The next word starts a line when the
/// cursor is back in column 0.
pub open spec fn wrap_step(st: WrapState, word: Seq<u8>) -> WrapState {
    let e = step_bytes(st, word);
    let p = st.printer.after_print(e);
    WrapState { printer: p, first: p.cursor_x == 0, out: st.out + e }
}

/// Word wrapping after each of `words` in turn.
pub open spec fn wrap_all(st: WrapState, words: Seq<Seq<u8>>) -> WrapState
    decreases words.len(),
{
    if words.len() == 0 {
        st
    } else {
        wrap_all(wrap_step(st, words[0]), words.drop_first())
    }
}

/// Every byte that word wrapping puts can be put.
pub open spec fn wrap_ok(st: WrapState, words: Seq<Seq<u8>>) -> bool
    decreases words.len(),
{
    words.len() == 0 || (st.printer.can_print(step_bytes(st, words[0])) && wrap_ok(
        wrap_step(st, words[0]),
        words.drop_first(),
    ))
}

/// Word wrapping of `text` from printer `p`, at the start of a line.
pub open spec fn wrapped(p: PrinterView, text: Seq<u8>) -> WrapState {
    wrap_all(WrapState { printer: p, first: true, out: Seq::empty() }, split_words(text))
}

/// Word wrapping of `text` from printer `p` puts only bytes that can be put.
pub open spec fn can_wrap(p: PrinterView, text: Seq<u8>) -> bool {
    wrap_ok(WrapState { printer: p, first: true, out: Seq::empty() }, split_words(text))
}

/// Printing two pieces in turn is printing them joined.
pub proof fn lemma_print_concat(p: PrinterView, a: Seq<u8>, b: Seq<u8>)
    ensures
        p.after_print(a + b) == p.after_print(a).after_print(b),
        p.can_print(a + b) == (p.can_print(a) && p.after_print(a).can_print(b)),
    decreases a.len(),
{
    if a.len() == 0 {
        assert(a + b =~= b);
    } else {
        assert((a + b).drop_first() =~= a.drop_first() + b);
        lemma_print_concat(p.after_put(a[0]), a.drop_first(), b);
    }
}

/// The writes of two pieces of text are those of the pieces, in order.
pub proof fn lemma_printed_concat(a: Seq<u8>, b: Seq<u8>)
    ensures
        printed(a + b) == printed(a) + printed(b),
{
    assert(printed(a + b) =~= printed(a) + printed(b));
}

/// A run of `m` bytes without a space, ended by a space or by the end of
/// `s`, is the first word of `s`.
proof fn lemma_first_word_len(s: Seq<u8>, m: int)
    requires
        0 <= m <= s.len(),
        forall|k: int| 0 <= k < m ==> s[k] != 32,
        m == s.len() || s[m] == 32,
    ensures
        first_word_len(s) == m,
    decreases m,
{
    if m > 0 {
        lemma_first_word_len(s.drop_first(), m - 1);
    }
}

/// Printing `piece` after `done` is printing `done + piece`.
pub proof fn lemma_print_more(p: PrinterView, done: Seq<u8>, piece: Seq<u8>)
    ensures
        p.after_print(done + piece) == p.after_print(done).after_print(piece),
        p.can_print(done + piece) == (p.can_print(done) && p.after_print(done).can_print(piece)),
        printed(done + piece) == printed(done) + printed(piece),
{
    lemma_print_concat(p, done, piece);
    lemma_printed_concat(done, piece);
}

/// A printer whose cursor is on its text area can put any byte, and its
/// cursor stays on the area.
pub proof fn lemma_put_stays_on_screen(p: PrinterView, byte: u8)
    requires
        p.on_screen(),
    ensures
        p.can_put(byte),
        p.after_put(byte).on_screen(),
{
    let q = p.after_put(byte);
    if p.wraps(byte) {
        assert(q.cursor_x <= 1);
    } else {
        assert(q.cursor_x == p.cursor_x + 1);
    }
}

/// A printer whose cursor is on its text area can print any text, and its
/// cursor stays on the area.
pub proof fn lemma_print_stays_on_screen(p: PrinterView, bytes: Seq<u8>)
    requires
        p.on_screen(),
    ensures
        p.can_print(bytes),
        p.after_print(bytes).on_screen(),
    decreases bytes.len(),
{
    if bytes.len() > 0 {
        lemma_put_stays_on_screen(p, bytes[0]);
        lemma_print_stays_on_screen(p.after_put(bytes[0]), bytes.drop_first());
    }
}

/// Word wrapping from a printer whose cursor is on its text area puts only
/// bytes that can be put, and leaves the cursor on the area.
pub proof fn lemma_wrap_stays_on_screen(st: WrapState, words: Seq<Seq<u8>>)
    requires
        st.printer.on_screen(),
    ensures
        wrap_ok(st, words),
        wrap_all(st, words).printer.on_screen(),
    decreases words.len(),
{
    if words.len() > 0 {
        lemma_print_stays_on_screen(st.printer, step_bytes(st, words[0]));
        lemma_wrap_stays_on_screen(wrap_step(st, words[0]), words.drop_first());
    }
}

/// Any text can be word-wrapped from a printer whose cursor is on its text
/// area, and the cursor stays on the area.
pub proof fn lemma_can_wrap_on_screen(p: PrinterView, text: Seq<u8>)
    requires
        p.on_screen(),
    ensures
        can_wrap(p, text),
        wrapped(p, text).printer.on_screen(),
{
    lemma_wrap_stays_on_screen(
        WrapState { printer: p, first: true, out: Seq::empty() },
        split_words(text),
    );
}

/// Bytes without a newline that fit on the rest of the line are put on that
/// line: the cursor ends just after them, on the same row.
pub proof fn lemma_print_within_line(p: PrinterView, bytes: Seq<u8>)
    requires
        p.cursor_x + bytes.len() <= p.width,
        forall|i: int| 0 <= i < bytes.len() ==> bytes[i] != 10,
    ensures
        p.can_print(bytes),
        p.after_print(bytes).cursor_x == p.cursor_x + bytes.len(),
        p.after_print(bytes).cursor_y == p.cursor_y,
        p.after_print(bytes).width == p.width,
    decreases bytes.len(),
{
    if bytes.len() > 0 {
        assert(bytes[0] != 10);
        lemma_print_within_line(p.after_put(bytes[0]), bytes.drop_first());
    }
}

/// The first word of `s` is a prefix without spaces, ended by a space unless
/// it is all of `s`.
proof fn lemma_first_word_shape(s: Seq<u8>)
    ensures
        first_word_len(s) <= s.len(),
        forall|k: int| 0 <= k < first_word_len(s) ==> s[k] != 32,
        first_word_len(s) < s.len() ==> s[first_word_len(s) as int] == 32,
    decreases s.len(),
{
    if s.len() > 0 && s[0] != 32 {
        lemma_first_word_shape(s.drop_first());
        assert forall|k: int| 0 <= k < first_word_len(s) implies s[k] != 32 by {
            if k > 0 {
                assert(s[k] == s.drop_first()[k - 1]);
            }
        }
    }
}

/// What goes before the next word: nothing at the start of a line, else a
/// space.
pub open spec fn word_lead(st: WrapState) -> Seq<u8> {
    if st.first {
        Seq::empty()
    } else {
        seq![32u8]
    }
}

/// From any point of word wrapping, the rest of a text that fits on the
/// current row (with the space owed before it) comes out as it is.
proof fn lemma_wrap_fits(st: WrapState, s: Seq<u8>)
    requires
        forall|i: int| 0 <= i < s.len() ==> s[i] != 10,
        st.printer.cursor_x + word_lead(st).len() + s.len() <= st.printer.width,
        st.first && st.printer.cursor_x == 0 ==> s.len() == 0 || s[0] != 32,
    ensures
        wrap_ok(st, split_words(s)),
        wrap_all(st, split_words(s)).printer == st.printer.after_print(word_lead(st) + s),
        wrap_all(st, split_words(s)).out == st.out + (word_lead(st) + s),
    decreases s.len(),
{
    lemma_first_word_shape(s);
    let n = first_word_len(s);
    let w = s.take(n as int);
    let lead = word_lead(st);
    let p = st.printer;
    let ws = split_words(s);
    let e = lead + w;
    assert(!breaks_before(st, w));
    assert(step_bytes(st, w) =~= e);
    assert forall|i: int| 0 <= i < e.len() implies e[i] != 10 by {
        if i >= lead.len() {
            assert(e[i] == s[i - lead.len()]);
        }
    }
    lemma_print_within_line(p, e);
    let st2 = wrap_step(st, w);
    assert(st2.printer == p.after_print(e));
    assert(st2.out == st.out + e);
    if n >= s.len() {
        assert(ws == seq![s]);
        assert(w =~= s);
        assert(ws.drop_first() =~= Seq::<Seq<u8>>::empty());
        assert(wrap_all(st, ws) == wrap_all(st2, ws.drop_first()));
        assert(wrap_ok(st2, ws.drop_first()));
    } else {
        let r = s.skip(n + 1int);
        assert(ws == seq![w] + split_words(r));
        assert(ws[0] == w);
        assert(ws.drop_first() =~= split_words(r));
        assert(st2.printer.cursor_x == p.cursor_x + lead.len() + n);
        assert(st2.printer.cursor_x > 0);
        assert(!st2.first);
        assert(word_lead(st2) =~= seq![32u8]);
        assert(r.len() == s.len() - n - 1);
        assert(e.len() == lead.len() + n);
        assert(st2.printer.width == p.width);
        assert(st2.printer.cursor_x + word_lead(st2).len() + r.len() <= st2.printer.width);
        assert forall|i: int| 0 <= i < r.len() implies r[i] != 10 by {
            assert(r[i] == s[i + n + 1int]);
        }
        lemma_wrap_fits(st2, r);
        let tail = seq![32u8] + r;
        assert(s =~= w + tail);
        assert(lead + s =~= e + tail);
        lemma_print_concat(p, e, tail);
        assert(st2.out + tail =~= st.out + (lead + s));
    }
}

/// A text with no newline that fits on the rest of the current row (and
/// does not start with a space at the start of a row) is word-wrapped as it
/// is: the same bytes as printing it, and the same printer afterwards.
pub proof fn lemma_wrap_fitting_text(p: PrinterView, text: Seq<u8>)
    requires
        forall|i: int| 0 <= i < text.len() ==> text[i] != 10,
        p.cursor_x + text.len() <= p.width,
        p.cursor_x > 0 || text.len() == 0 || text[0] != 32,
    ensures
        p.can_print(text),
        can_wrap(p, text),
        wrapped(p, text).printer == p.after_print(text),
        wrapped(p, text).out == text,
{
    let st = WrapState { printer: p, first: true, out: Seq::empty() };
    assert(word_lead(st) =~= Seq::<u8>::empty());
    assert(word_lead(st) + text =~= text);
    assert(st.out + (word_lead(st) + text) =~= text);
    lemma_wrap_fits(st, text);
    lemma_print_within_line(p, text);
}

/// Stepping back after a byte put within the line (neither a newline nor at
/// the end of a full line) returns the cursor to where it was, and the
/// writes of the step back blank the cell the byte went to.
pub proof fn lemma_backspace_undoes_put(p: PrinterView, byte: u8)
    requires
        p.can_put(byte),
        !p.wraps(byte),
    ensures
        p.after_put(byte).cursor_x != 0,
        p.after_put(byte).after_backspace() == p,
        p.after_put(byte).backspace_ops() == seq![
            TermOp::Cursor(pack_pair(p.cursor_x, p.cursor_y)),
            TermOp::Scrollprint { index: text_register(), value: 32 },
            TermOp::Cursor(pack_pair(p.cursor_x, p.cursor_y)),
        ],
{
}

/// Word wrapping never breaks a word that fits on a line: such a word ends
/// on the row where it starts, right after the space before it (or at the
/// start of a fresh line when it did not fit on the current one).
pub proof fn lemma_word_kept_whole(st: WrapState, word: Seq<u8>)
    requires
        st.printer.on_screen(),
        word.len() <= st.printer.width,
        forall|i: int| 0 <= i < word.len() ==> word[i] != 32 && word[i] != 10,
    ensures
        breaks_before(st, word) ==> wrap_step(st, word).printer.cursor_x == word.len(),
        !breaks_before(st, word) ==> wrap_step(st, word).printer.cursor_x == st.printer.cursor_x
            + (if st.first {
            0int
        } else {
            1int
        }) + word.len(),
        !breaks_before(st, word) ==> wrap_step(st, word).printer.cursor_y == st.printer.cursor_y,
{
    let p = st.printer;
    let e = step_bytes(st, word);
    if breaks_before(st, word) {
        lemma_print_concat(p, seq![10u8], word);
        assert(e =~= seq![10u8] + word);
        let q = p.after_put(10);
        assert(p.after_print(seq![10u8]) == q) by {
            reveal_with_fuel(PrinterView::after_print, 2);
        }
        lemma_print_within_line(q, word);
    } else if st.first {
        assert(e =~= word);
        lemma_print_within_line(p, word);
    } else {
        lemma_print_concat(p, seq![32u8], word);
        assert(e =~= seq![32u8] + word);
        let q = p.after_put(32);
        assert(p.after_print(seq![32u8]) == q) by {
            reveal_with_fuel(PrinterView::after_print, 2);
        }
        lemma_print_within_line(q, word);
    }
}

/// What a printer knows: where its cursor stands, its colours, and the size
/// of its text area.
pub struct PrinterView {
    pub cursor_x: u8,
    pub cursor_y: u8,
    pub fg: Colour,
    pub bg: Colour,
    pub width: u8,
    pub height: u8,
}

impl PrinterView {
    /// Putting `byte` starts a new line: it is a newline, or the line is full.
    pub open spec fn wraps(self, byte: u8) -> bool {
        byte == 10 || self.cursor_x == self.width
    }

    /// Putting `byte` stays within the cursor's arithmetic.
    pub open spec fn can_put(self, byte: u8) -> bool {
        if self.wraps(byte) {
            self.height >= 1
        } else {
            self.cursor_x < 255
        }
    }

    /// The printer after putting `byte`: a new line starts at column 0 of the
    /// next row (the last row stays the last); any byte but a newline then
    /// advances the column.
    pub open spec fn after_put(self, byte: u8) -> PrinterView {
        let x0: int = if self.wraps(byte) {
            0
        } else {
            self.cursor_x as int
        };
        let y: int = if self.wraps(byte) && self.cursor_y < self.height - 1 {
            self.cursor_y + 1
        } else {
            self.cursor_y as int
        };
        let x: int = if byte == 10 {
            x0
        } else {
            x0 + 1
        };
        PrinterView {
            cursor_x: x as u8,
            cursor_y: y as u8,
            fg: self.fg,
            bg: self.bg,
            width: self.width,
            height: self.height,
        }
    }

    /// The printer after putting each of `bytes` in turn.
    pub open spec fn after_print(self, bytes: Seq<u8>) -> PrinterView
        decreases bytes.len(),
    {
        if bytes.len() == 0 {
            self
        } else {
            self.after_put(bytes[0]).after_print(bytes.drop_first())
        }
    }

    /// Each of `bytes` can be put in turn.
    pub open spec fn can_print(self, bytes: Seq<u8>) -> bool
        decreases bytes.len(),
    {
        bytes.len() == 0 || (self.can_put(bytes[0]) && self.after_put(bytes[0]).can_print(
            bytes.drop_first(),
        ))
    }

    /// The printer with its cursor home.
    pub open spec fn after_clear(self) -> PrinterView {
        PrinterView { cursor_x: 0, cursor_y: 0, ..self }
    }

    /// The writes that clear the text area: the cursor goes home, then one
    /// blank line per row scrolls through.
    pub open spec fn clear_ops(self) -> Seq<TermOp> {
        seq![TermOp::Cursor(pack_pair(0, 0))] + text_ops(
            8,
            Seq::new(self.height as nat, |i: int| 32u8),
        )
    }

    /// The printer after stepping back one column.
    pub open spec fn after_backspace(self) -> PrinterView {
        PrinterView { cursor_x: (self.cursor_x - 1) as u8, ..self }
    }

    /// The writes that step back one column and blank the cell there.
    pub open spec fn backspace_ops(self) -> Seq<TermOp> {
        let x = (self.cursor_x - 1) as u8;
        seq![
            TermOp::Cursor(pack_pair(x, self.cursor_y)),
            TermOp::Scrollprint { index: text_register(), value: 32 },
            TermOp::Cursor(pack_pair(x, self.cursor_y)),
        ]
    }

    /// The cursor is on the text area, and the area has at least one row and
    /// one column.
    pub open spec fn on_screen(self) -> bool {
        &&& self.width >= 1
        &&& self.height >= 1
        &&& self.cursor_x <= self.width
        &&& self.cursor_y < self.height
    }
}

/// Keys that end a line of input: newline and carriage return.
pub open spec fn ends_line(key: u8) -> bool {
    key == 10 || key == 13
}

/// Keys that erase the last byte of a line of input: backspace and delete.
pub open spec fn erases(key: u8) -> bool {
    key == 8 || key == 127
}

/// Keys that are typed into a line of input.
pub open spec fn is_text_key(key: u8) -> bool {
    !ends_line(key) && !erases(key)
}

/// Where line input stands after a key: the line is done with this many
/// bytes, or still being edited with this many.
#[derive(Clone, Copy, PartialEq, Eq, Structural, Debug)]
pub enum LineEdit {
    Done(usize),
    Editing(usize),
}

/// The colours the blinking cursor is drawn in next.
#[derive(Clone, Copy, PartialEq, Eq, Structural, Debug)]
pub struct CursorBlink {
    pub fg: Colour,
    pub bg: Colour,
}

/// A line-oriented text printer over the terminal: it keeps the cursor and
/// the colours, and wraps at the width of its text area.
pub struct Printer {
    cursor_x: u8,
    cursor_y: u8,
    colour_fg: Colour,
    colour_bg: Colour,
    width: u8,
    height: u8,
}

impl View for Printer {
    type V = PrinterView;

    closed spec fn view(&self) -> PrinterView {
        PrinterView {
            cursor_x: self.cursor_x,
            cursor_y: self.cursor_y,
            fg: self.colour_fg,
            bg: self.colour_bg,
            width: self.width,
            height: self.height,
        }
    }
}

impl Printer {
    /// A fresh printer's state: cursor at the top left, white on black.
    pub open spec fn new_view(width: u8, height: u8) -> PrinterView {
        PrinterView { cursor_x: 0, cursor_y: 0, fg: Colour::C15, bg: Colour::C0, width, height }
    }

    /// A printer at the top left corner, white on black.
    pub fn new(width: u8, height: u8) -> (r: Self)
        ensures
            r@ == Self::new_view(width, height),
    {
        Printer {
            cursor_x: 0,
            cursor_y: 0,
            colour_fg: Colour::C15,
            colour_bg: Colour::C0,
            width,
            height,
        }
    }

    /// Sets the terminal up for this printer: drops pending input, sets the
    /// colours, the text area, the cursor, the newline character and the
    /// scroll mask.
    pub fn init(&self, terminal: &mut Terminal)
        requires
            self@.width >= 1,
            self@.height >= 1,
        ensures
            final(terminal)@ == old(terminal)@ + seq![
                TermOp::DiscardInput,
                TermOp::Colour(pack_colours(self@.fg, self@.bg)),
                TermOp::Hrange(pack_pair(0, (self@.width - 1) as u8)),
                TermOp::Vrange(pack_pair(0, (self@.height - 1) as u8)),
                TermOp::Cursor(pack_pair(0, 0)),
                TermOp::Nlchar(10),
                TermOp::Scrollmask(u32::MAX),
            ],
    {
        terminal.reset_keyboard();
        terminal.set_cell_colour(self.fg(), self.bg());
        terminal.set_horizontal_range(0, self.width - 1);
        terminal.set_vertical_range(0, self.height - 1);
        terminal.set_cursor_position(0, 0);
        terminal.set_newline_char(10u8);
        terminal.set_scrollmask(u32::MAX);
    }

    /// Moves the cursor home and blanks one line per row of the text area.
    pub fn clear(&mut self, terminal: &mut Terminal)
        ensures
            final(self)@ == old(self)@.after_clear(),
            final(terminal)@ == old(terminal)@ + old(self)@.clear_ops(),
    {
        self.set_cursor(terminal, 0, 0);
        let ghost start = terminal@;
        let mut i: u8 = 0;
        while i < self.height
            invariant
                i <= self@.height,
                self@ == (PrinterView { cursor_x: 0, cursor_y: 0, ..old(self)@ }),
                start == old(terminal)@.push(TermOp::Cursor(pack_pair(0, 0))),
                terminal@ == start + text_ops(8, Seq::new(i as nat, |k: int| 32u8)),
            decreases self@.height - i,
        {
            terminal.print_byte(ScrollprintFlags::enable_scrollmask(), 32u8);
            i = i + 1;
            assert(terminal@ =~= start + text_ops(8, Seq::new(i as nat, |k: int| 32u8)));
        }
        assert(terminal@ =~= old(terminal)@ + old(self)@.clear_ops());
    }

    /// Puts one byte through the terminal and moves the cursor as the
    /// terminal does. Returns whether the byte was a newline.
    pub(crate) fn put(&mut self, terminal: &mut Terminal, byte: u8) -> (is_newline: bool)
        requires
            old(self)@.can_put(byte),
        ensures
            final(self)@ == old(self)@.after_put(byte),
            final(terminal)@ == old(terminal)@ + printed(seq![byte]),
            is_newline == (byte == 10),
    {
        let is_newline = byte == 10u8;
        if is_newline || self.cursor_x == self.width {
            self.cursor_x = 0;
            if self.cursor_y < self.height - 1 {
                self.cursor_y = self.cursor_y + 1;
            }
        }
        terminal.print_byte(ScrollprintFlags::simple_terminal(), byte);
        if !is_newline {
            self.cursor_x = self.cursor_x + 1;
        }
        assert(old(terminal)@ + printed(seq![byte]) =~= terminal@);
        is_newline
    }

    /// Puts each byte of `bytes` in turn.
    pub(crate) fn put_all(&mut self, terminal: &mut Terminal, bytes: &[u8])
        requires
            old(self)@.can_print(bytes@),
        ensures
            final(self)@ == old(self)@.after_print(bytes@),
            final(terminal)@ == old(terminal)@ + printed(bytes@),
    {
        let mut i: usize = 0;
        assert(bytes@.skip(0) =~= bytes@);
        while i < bytes.len()
            invariant
                i <= bytes@.len(),
                self@.can_print(bytes@.skip(i as int)),
                self@.after_print(bytes@.skip(i as int)) == old(self)@.after_print(bytes@),
                terminal@ == old(terminal)@ + printed(bytes@.take(i as int)),
            decreases bytes@.len() - i,
        {
            assert(bytes@.skip(i as int).drop_first() =~= bytes@.skip(i + 1));
            self.put(terminal, bytes[i]);
            i = i + 1;
            assert(printed(bytes@.take(i - 1)) + printed(seq![bytes@[i - 1]]) =~= printed(
                bytes@.take(i as int),
            ));
        }
        assert(bytes@.skip(i as int) =~= Seq::<u8>::empty());
        assert(bytes@.take(i as int) =~= bytes@);
    }

    /// Prints the bytes of `text`, wrapping when the line is full.
    pub fn print(&mut self, terminal: &mut Terminal, text: &str)
        requires
            old(self)@.can_print(text.spec_bytes()),
        ensures
            final(self)@ == old(self)@.after_print(text.spec_bytes()),
            final(terminal)@ == old(terminal)@ + printed(text.spec_bytes()),
    {
        self.put_all(terminal, text.as_bytes());
    }

    /// Prints `text` word by word: a word that would run past the end of the
    /// line starts a new line instead of the space before it.
    pub fn print_with_breaks(&mut self, terminal: &mut Terminal, text: &str)
        requires
            can_wrap(old(self)@, text.spec_bytes()),
        ensures
            final(self)@ == wrapped(old(self)@, text.spec_bytes()).printer,
            final(terminal)@ == old(terminal)@ + printed(
                wrapped(old(self)@, text.spec_bytes()).out,
            ),
    {
        let bytes = text.as_bytes();
        let n = bytes.len();
        let mut start: usize = 0;
        let mut first_word = true;
        let ghost mut out: Seq<u8> = Seq::empty();
        let ghost target = wrapped(self@, bytes@);
        assert(bytes@.skip(0) =~= bytes@);
        assert(terminal@ =~= old(terminal)@ + printed(out));
        loop
            invariant_except_break
                wrap_ok(
                    WrapState { printer: self@, first: first_word, out },
                    split_words(bytes@.skip(start as int)),
                ),
                wrap_all(
                    WrapState { printer: self@, first: first_word, out },
                    split_words(bytes@.skip(start as int)),
                ) == target,
            invariant
                n == bytes@.len(),
                bytes@ == text.spec_bytes(),
                target == wrapped(old(self)@, bytes@),
                start <= n,
                terminal@ == old(terminal)@ + printed(out),
            ensures
                self@ == target.printer,
                terminal@ == old(terminal)@ + printed(target.out),
            decreases n - start,
        {
            let mut j = start;
            while j < n && bytes[j] != 32u8
                invariant
                    n == bytes@.len(),
                    start <= j <= n,
                    forall|k: int| start <= k < j ==> bytes@[k] != 32,
                decreases n - j,
            {
                j = j + 1;
            }
            let ghost rest = bytes@.skip(start as int);
            proof {
                lemma_first_word_len(rest, j - start);
            }
            let word = &bytes[start..j];
            let ghost st = WrapState { printer: self@, first: first_word, out };
            let ghost words = split_words(rest);
            proof {
                if j == n {
                    assert(words == seq![rest]);
                    assert(word@ =~= rest);
                } else {
                    assert(rest.take(j - start) =~= word@);
                    assert(rest.skip(j - start + 1) =~= bytes@.skip(j + 1));
                    assert(words == seq![word@] + split_words(bytes@.skip(j + 1)));
                }
                assert(words[0] == word@);
                assert(words.drop_first() =~= if j == n {
                    Seq::<Seq<u8>>::empty()
                } else {
                    split_words(bytes@.skip(j + 1))
                });
            }
            let ghost e = step_bytes(st, word@);
            let ghost lead = e.take(e.len() - word@.len());
            assert(e =~= lead + word@);
            proof {
                lemma_print_concat(st.printer, lead, word@);
            }
            let word_len = j - start;
            let required: usize = if first_word {
                0
            } else {
                1
            };
            let used = self.cursor_x as usize + required;
            if used > self.width as usize || word_len > self.width as usize - used {
                assert(lead =~= seq![10u8]);
                self.put(terminal, 10u8);
                first_word = true;
            } else if !first_word {
                assert(lead =~= seq![32u8]);
                self.put(terminal, 32u8);
            } else {
                assert(lead =~= Seq::<u8>::empty());
            }
            assert(self@ == st.printer.after_print(lead)) by {
                reveal_with_fuel(PrinterView::after_print, 2);
            }
            proof {
                lemma_printed_concat(out, lead);
            }
            self.put_all(terminal, word);
            proof {
                lemma_printed_concat(out + lead, word@);
                assert(out + lead + word@ =~= out + e);
                out = out + e;
            }
            first_word = self.cursor_x == 0;
            if j == n {
                assert(wrap_all(st, words) == wrap_all(
                    wrap_step(st, word@),
                    Seq::<Seq<u8>>::empty(),
                ));
                break;
            }
            start = j + 1;
        }
    }

    /// Starts a new line.
    pub fn newline(&mut self, terminal: &mut Terminal)
        requires
            old(self)@.height >= 1,
        ensures
            final(self)@ == old(self)@.after_put(10),
            final(terminal)@ == old(terminal)@ + printed(seq![10u8]),
    {
        self.put(terminal, 10u8);
    }

    /// Steps back over the last character of the line and blanks it; does
    /// nothing at the start of a line. Returns whether it stepped back.
    pub fn backspace(&mut self, terminal: &mut Terminal) -> (stepped: bool)
        ensures
            stepped == (old(self)@.cursor_x != 0),
            !stepped ==> final(self)@ == old(self)@ && final(terminal)@ == old(terminal)@,
            stepped ==> final(self)@ == old(self)@.after_backspace() && final(terminal)@ == old(
                terminal,
            )@ + old(self)@.backspace_ops(),
    {
        if self.cursor_x == 0 {
            return false;
        }
        self.cursor_x = self.cursor_x - 1;
        terminal.set_cursor_position(self.cursor_x, self.cursor_y);
        terminal.print_byte(ScrollprintFlags::simple_terminal(), 32u8);
        terminal.set_cursor_position(self.cursor_x, self.cursor_y);
        true
    }

    /// Handles one key of line input into `buffer`, which holds `len` bytes
    /// so far. A newline or carriage return ends the line; backspace or
    /// delete drops the last byte; any other key is appended and echoed when
    /// there is room and `validate` accepts the line with it, and is
    /// otherwise left in the buffer just past the line.
    pub fn edit_line<F: Fn(&[u8]) -> bool>(
        &mut self,
        terminal: &mut Terminal,
        buffer: &mut [u8],
        len: usize,
        key: u8,
        validate: &F,
    ) -> (r: LineEdit)
        requires
            len <= old(buffer)@.len(),
            forall|s: &[u8]| #[trigger] validate.requires((s,)),
            ends_line(key) ==> old(self)@.height >= 1,
            is_text_key(key) && len < old(buffer)@.len() ==> forall|s: &[u8], ok: bool|
                s@ == old(buffer)@.update(len as int, key).take(len + 1) && #[trigger] validate.ensures(
                    (s,),
                    ok,
                ) && ok ==> old(self)@.can_put(key),
        ensures
            ends_line(key) ==> {
                &&& r == LineEdit::Done(len)
                &&& final(buffer)@ == old(buffer)@
                &&& final(self)@ == old(self)@.after_put(10)
                &&& final(terminal)@ == old(terminal)@ + printed(seq![10u8])
            },
            erases(key) ==> {
                &&& final(buffer)@ == old(buffer)@
                &&& len == 0 ==> r == LineEdit::Editing(0) && final(self)@ == old(self)@
                    && final(terminal)@ == old(terminal)@
                &&& len > 0 && old(self)@.cursor_x == 0 ==> r == LineEdit::Editing(
                    (len - 1) as usize,
                ) && final(self)@ == old(self)@ && final(terminal)@ == old(terminal)@
                &&& len > 0 && old(self)@.cursor_x != 0 ==> r == LineEdit::Editing(
                    (len - 1) as usize,
                ) && final(self)@ == old(self)@.after_backspace() && final(terminal)@ == old(
                    terminal,
                )@ + old(self)@.backspace_ops()
            },
            is_text_key(key) && len == old(buffer)@.len() ==> {
                &&& r == LineEdit::Editing(len)
                &&& final(buffer)@ == old(buffer)@
                &&& final(self)@ == old(self)@
                &&& final(terminal)@ == old(terminal)@
            },
            is_text_key(key) && len < old(buffer)@.len() ==> {
                &&& final(buffer)@ == old(buffer)@.update(len as int, key)
                &&& ({
                    ||| {
                        &&& r == LineEdit::Editing((len + 1) as usize)
                        &&& exists|s: &[u8]|
                            s@ == final(buffer)@.take(len + 1) && #[trigger] validate.ensures(
                                (s,),
                                true,
                            )
                        &&& final(self)@ == old(self)@.after_put(key)
                        &&& final(terminal)@ == old(terminal)@ + printed(seq![key])
                    }
                    ||| {
                        &&& r == LineEdit::Editing(len)
                        &&& exists|s: &[u8]|
                            s@ == final(buffer)@.take(len + 1) && #[trigger] validate.ensures(
                                (s,),
                                false,
                            )
                        &&& final(self)@ == old(self)@
                        &&& final(terminal)@ == old(terminal)@
                    }
                })
            },
    {
        if key == 10u8 || key == 13u8 {
            self.newline(terminal);
            return LineEdit::Done(len);
        }
        if key == 8u8 || key == 127u8 {
            if len != 0 {
                self.backspace(terminal);
                return LineEdit::Editing(len - 1);
            }
            return LineEdit::Editing(len);
        }
        if len < buffer.len() {
            buffer[len] = key;
            let line = &buffer[0..len + 1];
            assert(line@ =~= buffer@.take(len + 1));
            if validate(line) {
                self.put(terminal, key);
                return LineEdit::Editing(len + 1);
            }
        }
        LineEdit::Editing(len)
    }

    /// One frame of the blinking cursor while waiting for a key. When `key`
    /// is not 0 the cursor cell is restored in the printer's colours and the
    /// key is taken; otherwise the cell is drawn in the blink colours, which
    /// then swap for the next frame.
    pub fn blink_step(&self, terminal: &mut Terminal, blink: &mut CursorBlink, key: u32) -> (got_key: bool)
        ensures
            got_key == (key != 0),
            got_key ==> *final(blink) == *old(blink) && final(terminal)@ == old(terminal)@ + seq![
                TermOp::Colour(pack_colours(self@.fg, self@.bg)),
                TermOp::Cursor(pack_pair(self@.cursor_x, self@.cursor_y)),
                TermOp::Scrollprint { index: 1, value: 32 },
                TermOp::Cursor(pack_pair(self@.cursor_x, self@.cursor_y)),
            ],
            !got_key ==> *final(blink) == (CursorBlink { fg: old(blink).bg, bg: old(blink).fg })
                && final(terminal)@ == old(terminal)@ + seq![
                TermOp::Colour(pack_colours(old(blink).fg, old(blink).bg)),
                TermOp::Cursor(pack_pair(self@.cursor_x, self@.cursor_y)),
                TermOp::Scrollprint { index: 1, value: 32 },
            ],
    {
        if key != 0 {
            terminal.set_cell_colour(self.colour_fg, self.colour_bg);
            terminal.set_cursor_position(self.cursor_x, self.cursor_y);
            terminal.print_byte(ScrollprintFlags::term_mode(), 32u8);
            terminal.set_cursor_position(self.cursor_x, self.cursor_y);
            return true;
        }
        terminal.set_cell_colour(blink.fg, blink.bg);
        terminal.set_cursor_position(self.cursor_x, self.cursor_y);
        terminal.print_byte(ScrollprintFlags::term_mode(), 32u8);
        let fg = blink.fg;
        blink.fg = blink.bg;
        blink.bg = fg;
        false
    }

    pub fn fg(&self) -> (r: Colour)
        ensures
            r == self@.fg,
    {
        self.colour_fg
    }

    pub fn bg(&self) -> (r: Colour)
        ensures
            r == self@.bg,
    {
        self.colour_bg
    }

    pub fn cursor_x(&self) -> (r: u8)
        ensures
            r == self@.cursor_x,
    {
        self.cursor_x
    }

    pub fn cursor_y(&self) -> (r: u8)
        ensures
            r == self@.cursor_y,
    {
        self.cursor_y
    }

    pub fn set_colour(&mut self, terminal: &mut Terminal, foreground: Colour, background: Colour)
        ensures
            final(self)@ == (PrinterView { fg: foreground, bg: background, ..old(self)@ }),
            final(terminal)@ == old(terminal)@.push(
                TermOp::Colour(pack_colours(foreground, background)),
            ),
    {
        self.colour_fg = foreground;
        self.colour_bg = background;
        terminal.set_cell_colour(self.colour_fg, self.colour_bg);
    }

    pub fn set_cursor(&mut self, terminal: &mut Terminal, x: u8, y: u8)
        ensures
            final(self)@ == (PrinterView { cursor_x: x, cursor_y: y, ..old(self)@ }),
            final(terminal)@ == old(terminal)@.push(TermOp::Cursor(pack_pair(x, y))),
    {
        self.cursor_x = x;
        self.cursor_y = y;
        terminal.set_cursor_position(self.cursor_x, self.cursor_y);
    }
}

} // verus!

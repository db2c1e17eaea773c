//! The 80x25 VGA text screen: one 16-bit cell per character, the low byte
//! the character, the high byte the colour (background in the high nibble,
//! foreground in the low nibble).
use vstd::prelude::*;

verus! {

/// Number of character columns of the text screen.
pub const TERMINAL_WIDTH: usize = 80;

/// Number of character rows of the text screen.
pub const TERMINAL_HEIGHT: usize = 25;

/// Number of cells of the text screen.
pub const TERMINAL_CELLS: usize = 2000;

/// A VGA colour; the sixteen colours are its associated constants.
pub struct VgaColor(pub u8);

impl VgaColor {
    pub const BLACK: u8 = 0;
    pub const BLUE: u8 = 1;
    pub const GREEN: u8 = 2;
    pub const CYAN: u8 = 3;
    pub const RED: u8 = 4;
    pub const MAGENTA: u8 = 5;
    pub const BROWN: u8 = 6;
    pub const LIGHT_GREY: u8 = 7;
    pub const DARK_GREY: u8 = 8;
    pub const LIGHT_BLUE: u8 = 9;
    pub const LIGHT_GREEN: u8 = 10;
    pub const LIGHT_CYAN: u8 = 11;
    pub const LIGHT_RED: u8 = 12;
    pub const LIGHT_MAGENTA: u8 = 13;
    pub const LIGHT_BROWN: u8 = 14;
    pub const WHITE: u8 = 15;
}

/// The colour byte of a cell: foreground in the low nibble, background
/// shifted into the high nibble (the shift drops the background's high bits).
pub open spec fn color_byte(bg: u8, fg: u8) -> u8 {
    fg | ((bg << 4u8) as u8)
}

/// The cell that shows `c` in the given colours: the character truncated to
/// 16 bits, or-ed with the colour byte in the high byte.
pub open spec fn vga_entry(c: char, bg: u8, fg: u8) -> u16 {
    ((c as u32) as u16) | ((color_byte(bg, fg) as u16) << 8u16)
}

/// Computes the cell value of `c` shown in the colours `bg` and `fg`.
pub fn make_vga_entry(c: char, bg: u8, fg: u8) -> (cell: u16)
    ensures
        cell == vga_entry(c, bg, fg),
{
    let c16: u16 = (c as u32) as u16;
    let color: u8 = fg | ((bg << 4u8) as u8);
    let color16: u16 = color as u16;
    c16 | (color16 << 8u16)
}

/// Number of bytes of the UTF-8 encoding of `c`.
pub open spec fn utf8_width(c: char) -> nat {
    if (c as u32) < 0x80 {
        1
    } else if (c as u32) < 0x800 {
        2
    } else if (c as u32) < 0x10000 {
        3
    } else {
        4
    }
}

/// Byte offset of the `i`-th character of `s` in its UTF-8 encoding: the
/// positions that `str::char_indices` reports.
pub open spec fn byte_offset(s: Seq<char>, i: int) -> nat
    decreases i,
{
    if i <= 0 {
        0
    } else {
        byte_offset(s, i - 1) + utf8_width(s[i - 1])
    }
}

/// Number of bytes of the UTF-8 encoding of `s`.
pub open spec fn utf8_len(s: Seq<char>) -> nat {
    byte_offset(s, s.len() as int)
}

/// Byte offsets grow strictly from one character to the next.
pub proof fn lemma_byte_offset_strictly_increasing(s: Seq<char>, i: int, j: int)
    requires
        0 <= i < j,
    ensures
        byte_offset(s, i) + 1 <= byte_offset(s, j),
    decreases j - i,
{
    if j > i + 1 {
        lemma_byte_offset_strictly_increasing(s, i, j - 1);
    }
}

/// Computes the number of bytes of the UTF-8 encoding of `c`.
pub fn char_utf8_width(c: char) -> (w: usize)
    ensures
        w == utf8_width(c),
{
    let v: u32 = c as u32;
    if v < 0x80 {
        1
    } else if v < 0x800 {
        2
    } else if v < 0x10000 {
        3
    } else {
        4
    }
}

/// The characters of `s`, in order.
pub fn str_chars(s: &str) -> (v: Vec<char>)
    ensures
        v@ == s@,
{
    let n = s.unicode_len();
    let mut v: Vec<char> = Vec::new();
    let mut i: usize = 0;
    while i < n
        invariant
            n == s@.len(),
            i <= n,
            v@ == s@.subrange(0, i as int),
        decreases n - i,
    {
        v.push(s.get_char(i));
        i = i + 1;
    }
    assert(v@ =~= s@);
    v
}

/// The cells after `text[..n]` has been written, character by character,
/// starting at cell `start`, the `i`-th character at `start` plus its byte
/// offset.
pub open spec fn paint(cells: Seq<u16>, start: int, text: Seq<char>, bg: u8, fg: u8, n: int) -> Seq<u16>
    decreases n,
{
    if n <= 0 {
        cells
    } else {
        paint(cells, start, text, bg, fg, n - 1).update(
            start + byte_offset(text, n - 1),
            vga_entry(text[n - 1], bg, fg),
        )
    }
}

/// The cells after the whole of `text` has been written from cell `start`.
pub open spec fn painted(cells: Seq<u16>, start: int, text: Seq<char>, bg: u8, fg: u8) -> Seq<u16> {
    paint(cells, start, text, bg, fg, text.len() as int)
}

/// Whether every character of `text`, written from cell `start`, lands on
/// the screen.
pub open spec fn fits_on_screen(start: int, text: Seq<char>) -> bool {
    &&& 0 <= start
    &&& forall|i: int| 0 <= i < text.len() ==> start + byte_offset(text, i) < TERMINAL_CELLS
}

/// Writing a string puts each character at its cell and leaves every other
/// cell as it was.
pub proof fn lemma_painted_cells(cells: Seq<u16>, start: int, text: Seq<char>, bg: u8, fg: u8)
    requires
        cells.len() == TERMINAL_CELLS,
        fits_on_screen(start, text),
    ensures
        painted(cells, start, text, bg, fg).len() == TERMINAL_CELLS,
        forall|i: int|
            0 <= i < text.len() ==> #[trigger] painted(cells, start, text, bg, fg)[start
                + byte_offset(text, i)] == vga_entry(text[i], bg, fg),
        forall|k: int|
            0 <= k < TERMINAL_CELLS && (forall|i: int|
                0 <= i < text.len() ==> start + #[trigger] byte_offset(text, i) != k) ==> painted(
                cells,
                start,
                text,
                bg,
                fg,
            )[k] == cells[k],
        forall|k: int|
            0 <= k < TERMINAL_CELLS && (k < start || start + utf8_len(text) <= k) ==> #[trigger] painted(
                cells,
                start,
                text,
                bg,
                fg,
            )[k] == cells[k],
{
    lemma_paint_prefix(cells, start, text, bg, fg, text.len() as int);
    assert forall|k: int|
        0 <= k < TERMINAL_CELLS && (k < start || start + utf8_len(text) <= k) implies #[trigger] painted(
            cells,
            start,
            text,
            bg,
            fg,
        )[k] == cells[k] by {
        assert forall|i: int| 0 <= i < text.len() implies start + #[trigger] byte_offset(text, i)
            != k by {
            lemma_byte_offset_strictly_increasing(text, i, text.len() as int);
        }
    }
}

proof fn lemma_paint_prefix(cells: Seq<u16>, start: int, text: Seq<char>, bg: u8, fg: u8, n: int)
    requires
        cells.len() == TERMINAL_CELLS,
        fits_on_screen(start, text),
        0 <= n <= text.len(),
    ensures
        paint(cells, start, text, bg, fg, n).len() == TERMINAL_CELLS,
        forall|i: int|
            0 <= i < n ==> #[trigger] paint(cells, start, text, bg, fg, n)[start + byte_offset(
                text,
                i,
            )] == vga_entry(text[i], bg, fg),
        forall|k: int|
            0 <= k < TERMINAL_CELLS && (forall|i: int|
                0 <= i < n ==> start + #[trigger] byte_offset(text, i) != k) ==> paint(
                cells,
                start,
                text,
                bg,
                fg,
                n,
            )[k] == cells[k],
    decreases n,
{
    if n > 0 {
        lemma_paint_prefix(cells, start, text, bg, fg, n - 1);
        assert forall|i: int| 0 <= i < n implies #[trigger] paint(cells, start, text, bg, fg, n)[start
            + byte_offset(text, i)] == vga_entry(text[i], bg, fg) by {
            if i < n - 1 {
                lemma_byte_offset_strictly_increasing(text, i, n - 1);
            }
        }
    }
}

/// The text screen: its cells row by row.
pub struct Screen {
    cells: Vec<u16>,
}

impl View for Screen {
    type V = Seq<u16>;

    closed spec fn view(&self) -> Seq<u16> {
        self.cells@
    }
}

impl Screen {
    /// A screen whose cells are all zero.
    pub fn new() -> (s: Screen)
        ensures
            s@ == Seq::new(TERMINAL_CELLS as nat, |i: int| 0u16),
            s@.len() == TERMINAL_CELLS,
    {
        let mut cells: Vec<u16> = Vec::new();
        let mut i: usize = 0;
        while i < TERMINAL_CELLS
            invariant
                i <= TERMINAL_CELLS,
                cells@ == Seq::new(i as nat, |k: int| 0u16),
            decreases TERMINAL_CELLS - i,
        {
            cells.push(0u16);
            i = i + 1;
        }
        Screen { cells }
    }

    /// The value of cell `index`.
    pub fn cell(&self, index: usize) -> (v: u16)
        requires
            self@.len() == TERMINAL_CELLS,
            index < TERMINAL_CELLS,
        ensures
            v == self@[index as int],
    {
        self.cells[index]
    }

    /// Writes the character `c` in colours `bg` and `fg` at column `x` of
    /// row `y`.
    pub fn put_char(&mut self, x: usize, y: usize, c: char, bg: u8, fg: u8)
        requires
            old(self)@.len() == TERMINAL_CELLS,
            y * TERMINAL_WIDTH + x < TERMINAL_CELLS,
        ensures
            final(self)@ == old(self)@.update(y * TERMINAL_WIDTH + x, vga_entry(c, bg, fg)),
            final(self)@.len() == TERMINAL_CELLS,
    {
        let cell = make_vga_entry(c, bg, fg);
        let index: usize = y * TERMINAL_WIDTH + x;
        self.cells.set(index, cell);
    }

    /// Writes the characters `text` on row `y` from column `x`: the `i`-th
    /// character goes to column `x` plus its byte offset in the UTF-8
    /// encoding of `text`.
    pub fn put_chars(&mut self, x: usize, y: usize, text: &[char], bg: u8, fg: u8)
        requires
            old(self)@.len() == TERMINAL_CELLS,
            fits_on_screen(y * TERMINAL_WIDTH + x, text@),
        ensures
            final(self)@ == painted(old(self)@, y * TERMINAL_WIDTH + x, text@, bg, fg),
            final(self)@.len() == TERMINAL_CELLS,
    {
        let n = text.len();
        let mut i: usize = 0;
        let mut offset: usize = 0;
        while i < n
            invariant
                n == text@.len(),
                i <= n,
                offset == byte_offset(text@, i as int),
                fits_on_screen(y * TERMINAL_WIDTH + x, text@),
                self@.len() == TERMINAL_CELLS,
                self@ == paint(old(self)@, y * TERMINAL_WIDTH + x, text@, bg, fg, i as int),
            decreases n - i,
        {
            let c = text[i];
            assert(y * TERMINAL_WIDTH + x + byte_offset(text@, i as int) < TERMINAL_CELLS);
            self.put_char(x + offset, y, c, bg, fg);
            let w = char_utf8_width(c);
            offset = offset + w;
            i = i + 1;
        }
    }

    /// Writes `text` on row `y` from column `x`: the `i`-th character goes
    /// to column `x` plus its byte offset in `text`, as `str::char_indices`
    /// reports it.
    pub fn put_string(&mut self, x: usize, y: usize, text: &str, bg: u8, fg: u8)
        requires
            old(self)@.len() == TERMINAL_CELLS,
            fits_on_screen(y * TERMINAL_WIDTH + x, text@),
        ensures
            final(self)@ == painted(old(self)@, y * TERMINAL_WIDTH + x, text@, bg, fg),
            final(self)@.len() == TERMINAL_CELLS,
    {
        let chars = str_chars(text);
        self.put_chars(x, y, chars.as_slice(), bg, fg);
    }

    /// Writes `c` in colours `bg` and `fg` into every cell.
    pub fn fill(&mut self, c: char, bg: u8, fg: u8)
        requires
            old(self)@.len() == TERMINAL_CELLS,
        ensures
            final(self)@ == Seq::new(TERMINAL_CELLS as nat, |i: int| vga_entry(c, bg, fg)),
            final(self)@.len() == TERMINAL_CELLS,
    {
        let ghost e = vga_entry(c, bg, fg);
        let mut x: usize = 0;
        while x < TERMINAL_WIDTH
            invariant
                x <= TERMINAL_WIDTH,
                e == vga_entry(c, bg, fg),
                self@.len() == TERMINAL_CELLS,
                forall|k: int| 0 <= k < TERMINAL_CELLS && k % 80 < x ==> self@[k] == e,
            decreases TERMINAL_WIDTH - x,
        {
            let mut y: usize = 0;
            while y < TERMINAL_HEIGHT
                invariant
                    x < TERMINAL_WIDTH,
                    y <= TERMINAL_HEIGHT,
                    e == vga_entry(c, bg, fg),
                    self@.len() == TERMINAL_CELLS,
                    forall|k: int| 0 <= k < TERMINAL_CELLS && k % 80 < x ==> self@[k] == e,
                    forall|k: int|
                        0 <= k < TERMINAL_CELLS && k % 80 == x && k / 80 < y ==> self@[k] == e,
                decreases TERMINAL_HEIGHT - y,
            {
                let ghost prev = self@;
                self.put_char(x, y, c, bg, fg);
                proof {
                    let ghost yy = y as int;
                    let ghost xx = x as int;
                    assert forall|k: int|
                        0 <= k < TERMINAL_CELLS && k % 80 == xx && k / 80 < yy + 1 implies self@[k]
                        == e by {
                        if k != yy * 80 + xx {
                            assert(k / 80 != yy) by (nonlinear_arith)
                                requires
                                    k % 80 == xx,
                                    k != yy * 80 + xx,
                                    0 <= k,
                                    0 <= xx < 80,
                            ;
                        }
                    }
                    assert forall|k: int| 0 <= k < TERMINAL_CELLS && k % 80 < xx implies self@[k]
                        == e by {
                        assert(k != yy * 80 + xx) by (nonlinear_arith)
                            requires
                                k % 80 < xx,
                                0 <= k,
                                0 <= xx < 80,
                                0 <= yy,
                        ;
                    }
                }
                y = y + 1;
            }
            x = x + 1;
        }
        assert(self@ =~= Seq::new(TERMINAL_CELLS as nat, |i: int| e));
    }
}

/// Shows a fatal error: the whole screen black, then `message` red on
/// black from the first cell.
pub fn show_error(screen: &mut Screen, message: &str)
    requires
        old(screen)@.len() == TERMINAL_CELLS,
        fits_on_screen(0, message@),
    ensures
        final(screen)@ == painted(
            Seq::new(TERMINAL_CELLS as nat, |i: int| vga_entry(' ', VgaColor::BLACK, VgaColor::BLACK)),
            0,
            message@,
            VgaColor::BLACK,
            VgaColor::RED,
        ),
        final(screen)@.len() == TERMINAL_CELLS,
{
    screen.fill(' ', VgaColor::BLACK, VgaColor::BLACK);
    screen.put_string(0, 0, message, VgaColor::BLACK, VgaColor::RED);
}

/// A cell holds its character in the low byte and its colours in the high
/// byte, the foreground in the low nibble and the background in the high
/// nibble: for a character below 256 and a foreground below 16, the cell is
/// the character plus 256 times (foreground plus 16 times the background's
/// low nibble).
pub proof fn lemma_vga_entry_layout(c: char, bg: u8, fg: u8)
    requires
        (c as u32) < 256,
        fg < 16,
    ensures
        vga_entry(c, bg, fg) == (c as u32) + 256 * (fg + 16 * (bg % 16)),
{
    let v = c as u32;
    let e = vga_entry(c, bg, fg);
    assert(e == (v as u16) | (((fg | ((bg << 4u8) as u8)) as u16) << 8u16));
    assert(e == v + 256 * (fg + 16 * (bg % 16))) by (bit_vector)
        requires
            e == (v as u16) | (((fg | ((bg << 4u8) as u8)) as u16) << 8u16),
            v < 256,
            fg < 16,
    ;
}

/// The width of a character is the length of its UTF-8 encoding.
pub proof fn lemma_utf8_width_is_encoding_length(c: char)
    ensures
        utf8_width(c) == vstd::utf8::encode_scalar(c as u32).len(),
{
}

/// The byte offset of a character is the length of the UTF-8 encoding of
/// the characters before it.
pub proof fn lemma_byte_offset_is_encoding_length(s: Seq<char>, i: int)
    requires
        0 <= i <= s.len(),
    ensures
        byte_offset(s, i) == vstd::utf8::encode_utf8(s.take(i)).len(),
    decreases i,
{
    if i > 0 {
        lemma_byte_offset_is_encoding_length(s, i - 1);
        lemma_encode_utf8_push(s.take(i - 1), s[i - 1]);
        assert(s.take(i) =~= s.take(i - 1).push(s[i - 1]));
        lemma_utf8_width_is_encoding_length(s[i - 1]);
    }
}

/// Encoding a sequence with one more character appends that character's
/// encoding.
proof fn lemma_encode_utf8_push(s: Seq<char>, c: char)
    ensures
        vstd::utf8::encode_utf8(s.push(c)).len() == vstd::utf8::encode_utf8(s).len()
            + vstd::utf8::encode_scalar(c as u32).len(),
    decreases s.len(),
{
    if s.len() > 0 {
        lemma_encode_utf8_push(s.drop_first(), c);
        assert(s.push(c).drop_first() =~= s.drop_first().push(c));
        assert(s.push(c)[0] == s[0]);
    } else {
        assert(s.push(c).drop_first() =~= Seq::<char>::empty());
        assert(s.push(c)[0] == c);
        assert(vstd::utf8::encode_utf8(Seq::<char>::empty()).len() == 0);
    }
}

} // verus!

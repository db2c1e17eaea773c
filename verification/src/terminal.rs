//! The kernel terminal: the text printed so far, and how it is laid out on
//! the screen. The text is cut into lines at each `'\n'` (a `'\r'` just
//! before it is dropped, as `str::lines` does), each line into rows of at
//! most `TERMINAL_WIDTH` characters, and the last `TERMINAL_HEIGHT` rows
//! are shown, white on black, each padded with blanks to the full width.
use vstd::prelude::*;
use crate::vga::{
    byte_offset, painted, str_chars, utf8_len, vga_entry, fits_on_screen,
    lemma_byte_offset_strictly_increasing, lemma_painted_cells, Screen, VgaColor,
    TERMINAL_CELLS, TERMINAL_HEIGHT, TERMINAL_WIDTH,
};

verus! {

/// `s` cut into rows of `TERMINAL_WIDTH` characters, the last one shorter;
/// an empty `s` gives no row.
pub open spec fn chunks(s: Seq<char>) -> Seq<Seq<char>>
    decreases s.len(),
{
    if s.len() == 0 {
        Seq::empty()
    } else if s.len() <= TERMINAL_WIDTH {
        seq![s]
    } else {
        seq![s.take(TERMINAL_WIDTH as int)] + chunks(s.skip(TERMINAL_WIDTH as int))
    }
}

/// `s` without its last character when that is a carriage return.
pub open spec fn strip_cr(s: Seq<char>) -> Seq<char> {
    if s.len() > 0 && s.last() == '\r' {
        s.drop_last()
    } else {
        s
    }
}

/// The rows of the lines that `t[..n]` completes, and the line it leaves
/// open.
pub open spec fn rows_acc(t: Seq<char>, n: int) -> (Seq<Seq<char>>, Seq<char>)
    decreases n,
{
    if n <= 0 {
        (Seq::empty(), Seq::empty())
    } else {
        let (rows, cur) = rows_acc(t, n - 1);
        if t[n - 1] == '\n' {
            (rows + chunks(strip_cr(cur)), Seq::empty())
        } else {
            (rows, cur.push(t[n - 1]))
        }
    }
}

/// All the rows of the text `t`, first to last.
pub open spec fn screen_rows(t: Seq<char>) -> Seq<Seq<char>> {
    let (rows, cur) = rows_acc(t, t.len() as int);
    rows + chunks(cur)
}

/// The rows of `t` that the screen shows: the last `TERMINAL_HEIGHT`.
pub open spec fn visible_rows(t: Seq<char>) -> Seq<Seq<char>> {
    let rows = screen_rows(t);
    if rows.len() > TERMINAL_HEIGHT {
        rows.skip(rows.len() - TERMINAL_HEIGHT)
    } else {
        rows
    }
}

/// Whether every row of `rows` takes at most `TERMINAL_WIDTH` bytes, so
/// that padding it to the screen's width needs no negative count.
pub open spec fn rows_fit(rows: Seq<Seq<char>>) -> bool {
    forall|y: int| 0 <= y < rows.len() ==> utf8_len(#[trigger] rows[y]) <= TERMINAL_WIDTH
}

/// `n` blanks.
pub open spec fn blanks(n: nat) -> Seq<char> {
    Seq::new(n, |i: int| ' ')
}

/// A row followed by as many blanks as its UTF-8 encoding falls short of
/// the screen's width.
pub open spec fn padded(row: Seq<char>) -> Seq<char> {
    row + blanks((TERMINAL_WIDTH - utf8_len(row)) as nat)
}

/// What row `y` of the screen is written with.
pub open spec fn row_text(rows: Seq<Seq<char>>, y: int) -> Seq<char> {
    if y < rows.len() {
        padded(rows[y])
    } else {
        blanks(TERMINAL_WIDTH as nat)
    }
}

/// The foreground colour of row `y`: white for a row of text, black for an
/// empty row.
pub open spec fn row_fg(rows: Seq<Seq<char>>, y: int) -> u8 {
    if y < rows.len() {
        VgaColor::WHITE
    } else {
        VgaColor::BLACK
    }
}

/// The cells after the first `n` rows of the screen have been written with
/// `rows`.
pub open spec fn render(cells: Seq<u16>, rows: Seq<Seq<char>>, n: int) -> Seq<u16>
    decreases n,
{
    if n <= 0 {
        cells
    } else {
        painted(
            render(cells, rows, n - 1),
            (n - 1) * TERMINAL_WIDTH,
            row_text(rows, n - 1),
            VgaColor::BLACK,
            row_fg(rows, n - 1),
        )
    }
}

/// The decimal digits of `n`, most significant first.
pub open spec fn decimal(n: nat) -> Seq<char>
    decreases n,
{
    if n < 10 {
        seq![digit(n)]
    } else {
        decimal(n / 10).push(digit(n % 10))
    }
}

/// The character of the decimal digit `d`.
pub open spec fn digit(d: nat) -> char {
    (d + 48) as char
}

/// The upper-case hexadecimal digits of `n`, most significant first.
pub open spec fn hex(n: nat) -> Seq<char>
    decreases n,
{
    if n < 16 {
        seq![hex_digit(n)]
    } else {
        hex(n / 16).push(hex_digit(n % 16))
    }
}

/// The character of the hexadecimal digit `d`, `A` to `F` upper case.
pub open spec fn hex_digit(d: nat) -> char {
    if d < 10 {
        (d + 48) as char
    } else {
        (d + 55) as char
    }
}

/// The line that `log_info` prints: the time in milliseconds in brackets,
/// the level, the message and a line break.
pub open spec fn log_line(millis: nat, level: Seq<char>, text: Seq<char>) -> Seq<char> {
    seq!['['] + decimal(millis) + seq![']', ' ', '['] + level + seq![']', ' '] + text + seq!['\n']
}

/// Appends the upper-case hexadecimal digits of `n` to `out`.
pub(crate) fn push_hex(out: &mut Vec<char>, n: usize)
    ensures
        final(out)@ == old(out)@ + hex(n as nat),
    decreases n,
{
    if n >= 16 {
        push_hex(out, n / 16);
    }
    let d: u8 = (n % 16) as u8;
    let c: char = if d < 10 {
        (d + 48u8) as char
    } else {
        (d + 55u8) as char
    };
    out.push(c);
    assert(c == hex_digit(n as nat % 16));
    assert(final(out)@ =~= old(out)@ + hex(n as nat));
}

/// The text printed so far.
pub struct Terminal {
    text: Vec<char>,
}

impl View for Terminal {
    type V = Seq<char>;

    closed spec fn view(&self) -> Seq<char> {
        self.text@
    }
}

/// Appends the decimal digits of `n` to `out`.
pub(crate) fn push_decimal(out: &mut Vec<char>, n: usize)
    ensures
        final(out)@ == old(out)@ + decimal(n as nat),
    decreases n,
{
    if n < 10 {
        out.push(((n as u8) + 48u8) as char);
        assert(((n as u8) + 48u8) as char == digit(n as nat));
    } else {
        push_decimal(out, n / 10);
        let d: usize = n % 10;
        out.push(((d as u8) + 48u8) as char);
        assert(((d as u8) + 48u8) as char == digit(n as nat % 10));
    }
    assert(final(out)@ =~= old(out)@ + decimal(n as nat));
}

/// The rows held in a vector of character vectors.
pub open spec fn rows_view(rows: Seq<Vec<char>>) -> Seq<Seq<char>> {
    rows.map_values(|r: Vec<char>| r@)
}

/// The characters `line[from..to]`.
fn slice_chars(line: &Vec<char>, from: usize, to: usize) -> (v: Vec<char>)
    requires
        from <= to <= line@.len(),
    ensures
        v@ == line@.subrange(from as int, to as int),
{
    let mut v: Vec<char> = Vec::new();
    let mut i: usize = from;
    while i < to
        invariant
            from <= i <= to,
            to <= line@.len(),
            v@ == line@.subrange(from as int, i as int),
        decreases to - i,
    {
        v.push(line[i]);
        i = i + 1;
    }
    v
}

/// Appends the rows of `line` to `rows`.
fn push_chunks(rows: &mut Vec<Vec<char>>, line: &Vec<char>)
    ensures
        rows_view(final(rows)@) == rows_view(old(rows)@) + chunks(line@),
{
    let n = line.len();
    let mut start: usize = 0;
    assert(line@.skip(0) =~= line@);
    while start < n
        invariant
            n == line@.len(),
            start <= n,
            rows_view(rows@) + chunks(line@.skip(start as int)) == rows_view(old(rows)@) + chunks(
                line@,
            ),
        decreases n - start,
    {
        let ghost rest = line@.skip(start as int);
        let ghost before = rows@;
        let end: usize = if n - start <= TERMINAL_WIDTH {
            n
        } else {
            start + TERMINAL_WIDTH
        };
        let chunk = slice_chars(line, start, end);
        rows.push(chunk);
        proof {
            assert(rows_view(rows@) =~= rows_view(before).push(chunk@));
            if n - start <= TERMINAL_WIDTH {
                assert(chunk@ =~= rest);
                assert(chunks(rest) == seq![rest]);
                assert(line@.skip(end as int) =~= Seq::<char>::empty());
                assert(chunks(line@.skip(end as int)) =~= Seq::<Seq<char>>::empty());
            } else {
                assert(chunk@ =~= rest.take(TERMINAL_WIDTH as int));
                assert(line@.skip(end as int) =~= rest.skip(TERMINAL_WIDTH as int));
            }
            assert(rows_view(rows@) + chunks(line@.skip(end as int)) =~= rows_view(before) + chunks(
                rest,
            ));
        }
        start = end;
    }
    proof {
        assert(line@.skip(n as int) =~= Seq::<char>::empty());
        assert(chunks(line@.skip(n as int)) =~= Seq::<Seq<char>>::empty());
        assert(rows_view(rows@) + chunks(line@.skip(n as int)) =~= rows_view(rows@));
    }
}

/// All the rows of the text `text`.
fn layout_rows(text: &Vec<char>) -> (rows: Vec<Vec<char>>)
    ensures
        rows_view(rows@) == screen_rows(text@),
{
    let mut rows: Vec<Vec<char>> = Vec::new();
    let mut cur: Vec<char> = Vec::new();
    let n = text.len();
    let mut i: usize = 0;
    proof {
        assert(rows_view(rows@) =~= Seq::<Seq<char>>::empty());
    }
    while i < n
        invariant
            n == text@.len(),
            i <= n,
            rows_acc(text@, i as int) == (rows_view(rows@), cur@),
        decreases n - i,
    {
        let c = text[i];
        if c == '\n' {
            let clen = cur.len();
            if clen > 0 && cur[clen - 1] == '\r' {
                cur.pop();
            }
            proof {
                assert(cur@ == strip_cr(rows_acc(text@, i as int).1));
            }
            push_chunks(&mut rows, &cur);
            cur = Vec::new();
            proof {
                assert(cur@ =~= Seq::<char>::empty());
            }
        } else {
            cur.push(c);
        }
        i = i + 1;
    }
    push_chunks(&mut rows, &cur);
    rows
}

/// The last `TERMINAL_HEIGHT` of `rows`, or all of them if there are no
/// more.
fn last_rows(rows: Vec<Vec<char>>) -> (v: Vec<Vec<char>>)
    ensures
        rows_view(v@) == (if rows@.len() > TERMINAL_HEIGHT {
            rows_view(rows@).skip(rows@.len() - TERMINAL_HEIGHT)
        } else {
            rows_view(rows@)
        }),
{
    let n = rows.len();
    if n <= TERMINAL_HEIGHT {
        return rows;
    }
    let from: usize = n - TERMINAL_HEIGHT;
    let mut v: Vec<Vec<char>> = Vec::new();
    let mut i: usize = from;
    while i < n
        invariant
            n == rows@.len(),
            from <= i <= n,
            rows_view(v@) == rows_view(rows@).subrange(from as int, i as int),
        decreases n - i,
    {
        let ghost before = v@;
        v.push(rows[i].clone());
        proof {
            assert(rows_view(v@) =~= rows_view(before).push(rows@[i as int]@));
            assert(rows_view(v@) =~= rows_view(rows@).subrange(from as int, i + 1));
        }
        i = i + 1;
    }
    proof {
        assert(rows_view(rows@).subrange(from as int, n as int) =~= rows_view(rows@).skip(
            from as int,
        ));
    }
    v
}

/// The number of bytes of the UTF-8 encoding of `row`.
fn chars_utf8_len(row: &Vec<char>) -> (n: usize)
    requires
        row@.len() <= TERMINAL_WIDTH,
    ensures
        n == utf8_len(row@),
{
    let mut i: usize = 0;
    let mut n: usize = 0;
    while i < row.len()
        invariant
            i <= row@.len() <= TERMINAL_WIDTH,
            n == byte_offset(row@, i as int),
            n <= 4 * i,
        decreases row@.len() - i,
    {
        n = n + crate::vga::char_utf8_width(row[i]);
        i = i + 1;
    }
    n
}

/// Every row that `chunks` makes holds between one and `TERMINAL_WIDTH`
/// characters.
pub proof fn lemma_chunks_bounded(s: Seq<char>)
    ensures
        forall|k: int|
            0 <= k < chunks(s).len() ==> 0 < (#[trigger] chunks(s)[k]).len() <= TERMINAL_WIDTH,
    decreases s.len(),
{
    if s.len() > TERMINAL_WIDTH {
        lemma_chunks_bounded(s.skip(TERMINAL_WIDTH as int));
        let rest = chunks(s.skip(TERMINAL_WIDTH as int));
        assert forall|k: int| 0 <= k < chunks(s).len() implies 0 < (
        #[trigger] chunks(s)[k]).len() <= TERMINAL_WIDTH by {
            if k > 0 {
                assert(chunks(s)[k] == rest[k - 1]);
            }
        }
    }
}

/// Every row of the text holds between one and `TERMINAL_WIDTH` characters.
pub proof fn lemma_rows_bounded(t: Seq<char>)
    ensures
        forall|k: int|
            0 <= k < screen_rows(t).len() ==> 0 < (#[trigger] screen_rows(t)[k]).len()
                <= TERMINAL_WIDTH,
        forall|k: int|
            0 <= k < visible_rows(t).len() ==> 0 < (#[trigger] visible_rows(t)[k]).len()
                <= TERMINAL_WIDTH,
        visible_rows(t).len() <= TERMINAL_HEIGHT,
{
    lemma_rows_acc_bounded(t, t.len() as int);
    let (rows, cur) = rows_acc(t, t.len() as int);
    lemma_chunks_bounded(cur);
    let all = screen_rows(t);
    assert forall|k: int| 0 <= k < all.len() implies 0 < (#[trigger] all[k]).len()
        <= TERMINAL_WIDTH by {
        if k >= rows.len() {
            assert(all[k] == chunks(cur)[k - rows.len()]);
        }
    }
    let vis = visible_rows(t);
    if all.len() > TERMINAL_HEIGHT {
        assert forall|k: int| 0 <= k < vis.len() implies 0 < (#[trigger] vis[k]).len()
            <= TERMINAL_WIDTH by {
            assert(vis[k] == all[k + all.len() - TERMINAL_HEIGHT]);
        }
    }
}

proof fn lemma_rows_acc_bounded(t: Seq<char>, n: int)
    ensures
        forall|k: int|
            0 <= k < rows_acc(t, n).0.len() ==> 0 < (#[trigger] rows_acc(t, n).0[k]).len()
                <= TERMINAL_WIDTH,
    decreases n,
{
    if n > 0 {
        lemma_rows_acc_bounded(t, n - 1);
        let (rows, cur) = rows_acc(t, n - 1);
        if t[n - 1] == '\n' {
            lemma_chunks_bounded(strip_cr(cur));
            let all = rows_acc(t, n).0;
            assert forall|k: int| 0 <= k < all.len() implies 0 < (#[trigger] all[k]).len()
                <= TERMINAL_WIDTH by {
                if k >= rows.len() {
                    assert(all[k] == chunks(strip_cr(cur))[k - rows.len()]);
                }
            }
        }
    }
}

/// Byte offsets in a concatenation: those of the first part, then the
/// length of the first part plus those of the second.
pub proof fn lemma_byte_offset_concat(a: Seq<char>, b: Seq<char>, i: int)
    requires
        0 <= i <= a.len() + b.len(),
    ensures
        byte_offset(a + b, i) == (if i <= a.len() {
            byte_offset(a, i)
        } else {
            utf8_len(a) + byte_offset(b, i - a.len())
        }),
    decreases i,
{
    if i > 0 {
        lemma_byte_offset_concat(a, b, i - 1);
    }
}

/// In a run of blanks each character takes one byte.
pub proof fn lemma_blanks_offset(n: nat, i: int)
    requires
        0 <= i <= n,
    ensures
        byte_offset(blanks(n), i) == i,
    decreases i,
{
    if i > 0 {
        lemma_blanks_offset(n, i - 1);
    }
}

/// Every character of a row of text or blanks written on row `y` lands on
/// row `y`.
proof fn lemma_row_text_fits(rows: Seq<Seq<char>>, y: int)
    requires
        0 <= y < TERMINAL_HEIGHT,
        rows_fit(rows),
    ensures
        utf8_len(row_text(rows, y)) == TERMINAL_WIDTH,
        forall|i: int|
            0 <= i < row_text(rows, y).len() ==> #[trigger] byte_offset(row_text(rows, y), i)
                < TERMINAL_WIDTH,
        fits_on_screen(y * TERMINAL_WIDTH, row_text(rows, y)),
{
    let s = row_text(rows, y);
    if y < rows.len() {
        let r = rows[y];
        let k = (TERMINAL_WIDTH - utf8_len(r)) as nat;
        lemma_byte_offset_concat(r, blanks(k), s.len() as int);
        lemma_blanks_offset(k, k as int);
    } else {
        lemma_blanks_offset(TERMINAL_WIDTH as nat, TERMINAL_WIDTH as int);
    }
    assert forall|i: int| 0 <= i < s.len() implies #[trigger] byte_offset(s, i) < TERMINAL_WIDTH by {
        lemma_byte_offset_strictly_increasing(s, i, s.len() as int);
    }
    assert forall|i: int| 0 <= i < s.len() implies y * TERMINAL_WIDTH + byte_offset(s, i)
        < TERMINAL_CELLS by {
        assert(byte_offset(s, i) < TERMINAL_WIDTH);
        assert(y * TERMINAL_WIDTH + TERMINAL_WIDTH <= TERMINAL_CELLS) by (nonlinear_arith)
            requires
                y < TERMINAL_HEIGHT,
        ;
    }
}

/// `n` blanks.
fn blank_chars(n: usize) -> (v: Vec<char>)
    ensures
        v@ == blanks(n as nat),
{
    let mut v: Vec<char> = Vec::new();
    let mut i: usize = 0;
    while i < n
        invariant
            i <= n,
            v@ == blanks(i as nat),
        decreases n - i,
    {
        v.push(' ');
        i = i + 1;
        proof {
            assert(v@ =~= blanks(i as nat));
        }
    }
    v
}

impl Terminal {
    /// A terminal that has printed nothing.
    pub fn new() -> (t: Terminal)
        ensures
            t@ == Seq::<char>::empty(),
    {
        Terminal { text: Vec::new() }
    }

    /// The text printed so far.
    pub fn text(&self) -> (v: Vec<char>)
        ensures
            v@ == self@,
    {
        self.text.clone()
    }

    /// The rows that the screen shows.
    pub fn rows(&self) -> (rows: Vec<Vec<char>>)
        ensures
            rows_view(rows@) == visible_rows(self@),
    {
        last_rows(layout_rows(&self.text))
    }

    /// Whether the text, with `more` printed after it, can be laid out:
    /// every row it shows takes at most the screen's width in bytes.
    pub fn can_print(&self, more: &str) -> (b: bool)
        ensures
            b == rows_fit(visible_rows(self@ + more@)),
    {
        let mut text = self.text.clone();
        let extra = str_chars(more);
        let mut i: usize = 0;
        let ghost t0 = text@;
        assert(t0 == self@);
        while i < extra.len()
            invariant
                i <= extra@.len(),
                text@ == t0 + extra@.subrange(0, i as int),
            decreases extra@.len() - i,
        {
            text.push(extra[i]);
            i = i + 1;
        }
        assert(text@ =~= self@ + more@);
        let rows = last_rows(layout_rows(&text));
        proof {
            lemma_rows_bounded(text@);
        }
        let mut y: usize = 0;
        while y < rows.len()
            invariant
                y <= rows@.len(),
                text@ == self@ + more@,
                rows_view(rows@) == visible_rows(text@),
                forall|k: int|
                    0 <= k < visible_rows(text@).len() ==> 0 < (
                    #[trigger] visible_rows(text@)[k]).len() <= TERMINAL_WIDTH,
                forall|k: int| 0 <= k < y ==> utf8_len(#[trigger] rows_view(rows@)[k]) <= TERMINAL_WIDTH,
            decreases rows@.len() - y,
        {
            assert(rows_view(rows@)[y as int] == rows@[y as int]@);
            if chars_utf8_len(&rows[y]) > TERMINAL_WIDTH {
                assert(utf8_len(visible_rows(self@ + more@)[y as int]) > TERMINAL_WIDTH);
                return false;
            }
            y = y + 1;
        }
        true
    }

    /// Shows the last rows of the text on `screen`: each row of text white
    /// on black, padded with blanks, each row past the text blank.
    pub fn update(&self, screen: &mut Screen)
        requires
            old(screen)@.len() == TERMINAL_CELLS,
            rows_fit(visible_rows(self@)),
        ensures
            final(screen)@ == render(old(screen)@, visible_rows(self@), TERMINAL_HEIGHT as int),
            final(screen)@.len() == TERMINAL_CELLS,
    {
        let rows = self.rows();
        let ghost vis = visible_rows(self@);
        proof {
            lemma_rows_bounded(self@);
        }
        let mut y: usize = 0;
        while y < TERMINAL_HEIGHT
            invariant
                y <= TERMINAL_HEIGHT,
                rows_view(rows@) == vis,
                vis == visible_rows(self@),
                rows_fit(vis),
                vis.len() <= TERMINAL_HEIGHT,
                forall|k: int| 0 <= k < vis.len() ==> 0 < (#[trigger] vis[k]).len() <= TERMINAL_WIDTH,
                screen@.len() == TERMINAL_CELLS,
                screen@ == render(old(screen)@, vis, y as int),
            decreases TERMINAL_HEIGHT - y,
        {
            proof {
                lemma_row_text_fits(vis, y as int);
            }
            if y < rows.len() {
                let row = &rows[y];
                assert(row@ == vis[y as int]);
                let used = chars_utf8_len(row);
                let mut line = slice_chars(row, 0, row.len());
                let mut pad = blank_chars(TERMINAL_WIDTH - used);
                line.append(&mut pad);
                assert(line@ =~= row_text(vis, y as int));
                screen.put_chars(0, y, line.as_slice(), VgaColor::BLACK, VgaColor::WHITE);
            } else {
                let line = blank_chars(TERMINAL_WIDTH);
                assert(line@ =~= row_text(vis, y as int));
                screen.put_chars(0, y, line.as_slice(), VgaColor::BLACK, VgaColor::BLACK);
            }
            y = y + 1;
        }
    }

    /// Appends `more` to the text.
    fn append_chars(&mut self, more: &Vec<char>)
        ensures
            final(self)@ == old(self)@ + more@,
    {
        let mut i: usize = 0;
        while i < more.len()
            invariant
                i <= more@.len(),
                self@ == old(self)@ + more@.subrange(0, i as int),
            decreases more@.len() - i,
        {
            self.text.push(more[i]);
            i = i + 1;
            assert(self@ =~= old(self)@ + more@.subrange(0, i as int));
        }
        assert(more@.subrange(0, more@.len() as int) =~= more@);
    }

    /// Appends `more` to the text and shows the text anew.
    fn print_chars(&mut self, screen: &mut Screen, more: &Vec<char>)
        requires
            old(screen)@.len() == TERMINAL_CELLS,
            rows_fit(visible_rows(old(self)@ + more@)),
        ensures
            final(self)@ == old(self)@ + more@,
            final(screen)@ == render(old(screen)@, visible_rows(final(self)@), TERMINAL_HEIGHT as int),
            final(screen)@.len() == TERMINAL_CELLS,
    {
        self.append_chars(more);
        self.update(screen);
    }

    /// Prints `text`: appends it to the text and shows the text anew.
    pub fn print(&mut self, screen: &mut Screen, text: &str)
        requires
            old(screen)@.len() == TERMINAL_CELLS,
            rows_fit(visible_rows(old(self)@ + text@)),
        ensures
            final(self)@ == old(self)@ + text@,
            final(screen)@ == render(old(screen)@, visible_rows(final(self)@), TERMINAL_HEIGHT as int),
            final(screen)@.len() == TERMINAL_CELLS,
    {
        let more = str_chars(text);
        self.print_chars(screen, &more);
    }

    /// Prints `text` and a line break.
    pub fn println(&mut self, screen: &mut Screen, text: &str)
        requires
            old(screen)@.len() == TERMINAL_CELLS,
            rows_fit(visible_rows(old(self)@ + text@.push('\n'))),
        ensures
            final(self)@ == old(self)@ + text@.push('\n'),
            final(screen)@ == render(old(screen)@, visible_rows(final(self)@), TERMINAL_HEIGHT as int),
            final(screen)@.len() == TERMINAL_CELLS,
    {
        let mut more = str_chars(text);
        more.push('\n');
        self.print_chars(screen, &more);
    }

    /// Prints the characters `text` as a log line of the given level,
    /// stamped with the time `millis`.
    pub(crate) fn log_chars(&mut self, screen: &mut Screen, millis: usize, level: &str, text: &[char])
        requires
            old(screen)@.len() == TERMINAL_CELLS,
            rows_fit(visible_rows(old(self)@ + log_line(millis as nat, level@, text@))),
        ensures
            final(self)@ == old(self)@ + log_line(millis as nat, level@, text@),
            final(screen)@ == render(old(screen)@, visible_rows(final(self)@), TERMINAL_HEIGHT as int),
            final(screen)@.len() == TERMINAL_CELLS,
    {
        let mut more: Vec<char> = Vec::new();
        more.push('[');
        push_decimal(&mut more, millis);
        more.push(']');
        more.push(' ');
        more.push('[');
        let mut lv = str_chars(level);
        more.append(&mut lv);
        more.push(']');
        more.push(' ');
        let ghost before = more@;
        let mut i: usize = 0;
        while i < text.len()
            invariant
                i <= text@.len(),
                more@ == before + text@.subrange(0, i as int),
            decreases text@.len() - i,
        {
            more.push(text[i]);
            i = i + 1;
            assert(more@ =~= before + text@.subrange(0, i as int));
        }
        assert(text@.subrange(0, text@.len() as int) =~= text@);
        more.push('\n');
        assert(more@ =~= log_line(millis as nat, level@, text@));
        self.print_chars(screen, &more);
    }

    /// Prints `text` as a log line of the given level, stamped with the
    /// time `millis`.
    fn log(&mut self, screen: &mut Screen, millis: usize, level: &str, text: &str)
        requires
            old(screen)@.len() == TERMINAL_CELLS,
            rows_fit(visible_rows(old(self)@ + log_line(millis as nat, level@, text@))),
        ensures
            final(self)@ == old(self)@ + log_line(millis as nat, level@, text@),
            final(screen)@ == render(old(screen)@, visible_rows(final(self)@), TERMINAL_HEIGHT as int),
            final(screen)@.len() == TERMINAL_CELLS,
    {
        let tx = str_chars(text);
        self.log_chars(screen, millis, level, tx.as_slice());
    }

    /// Prints `text` as an information line stamped with the time `millis`:
    /// `[millis] [INFO] text` and a line break.
    pub fn log_info(&mut self, screen: &mut Screen, millis: usize, text: &str)
        requires
            old(screen)@.len() == TERMINAL_CELLS,
            rows_fit(visible_rows(old(self)@ + log_line(millis as nat, "INFO"@, text@))),
        ensures
            final(self)@ == old(self)@ + log_line(millis as nat, "INFO"@, text@),
            final(screen)@ == render(old(screen)@, visible_rows(final(self)@), TERMINAL_HEIGHT as int),
            final(screen)@.len() == TERMINAL_CELLS,
    {
        self.log(screen, millis, "INFO", text);
    }

    /// Prints `text` as a fatal error line stamped with the time `millis`:
    /// `[millis] [FATAL] text` and a line break.
    pub fn log_error(&mut self, screen: &mut Screen, millis: usize, text: &str)
        requires
            old(screen)@.len() == TERMINAL_CELLS,
            rows_fit(visible_rows(old(self)@ + log_line(millis as nat, "FATAL"@, text@))),
        ensures
            final(self)@ == old(self)@ + log_line(millis as nat, "FATAL"@, text@),
            final(screen)@ == render(old(screen)@, visible_rows(final(self)@), TERMINAL_HEIGHT as int),
            final(screen)@.len() == TERMINAL_CELLS,
    {
        self.log(screen, millis, "FATAL", text);
    }
}

/// Cutting a line into rows loses and adds no character: the rows, put end
/// to end, give the line back.
pub proof fn lemma_chunks_flatten(s: Seq<char>)
    ensures
        chunks(s).flatten() == s,
    decreases s.len(),
{
    if s.len() == 0 {
        assert(chunks(s).flatten() =~= s);
    } else if s.len() <= TERMINAL_WIDTH {
        let c = chunks(s);
        assert(c.drop_first() =~= Seq::<Seq<char>>::empty());
        assert(c.drop_first().flatten() =~= Seq::<char>::empty());
        assert(c.flatten() == c[0] + c.drop_first().flatten());
        assert(chunks(s).flatten() =~= s);
    } else {
        lemma_chunks_flatten(s.skip(TERMINAL_WIDTH as int));
        let c = chunks(s);
        assert(c.drop_first() =~= chunks(s.skip(TERMINAL_WIDTH as int)));
        assert(c.flatten() == c[0] + c.drop_first().flatten());
        assert(s =~= s.take(TERMINAL_WIDTH as int) + s.skip(TERMINAL_WIDTH as int));
    }
}

/// Whether every character of `s` is ASCII.
pub open spec fn is_ascii_chars(s: Seq<char>) -> bool {
    forall|i: int| 0 <= i < s.len() ==> (#[trigger] s[i] as u32) < 0x80
}

/// In ASCII text the byte offset of a character is its index.
pub proof fn lemma_ascii_offset(s: Seq<char>, i: int)
    requires
        is_ascii_chars(s),
        0 <= i <= s.len(),
    ensures
        byte_offset(s, i) == i,
    decreases i,
{
    if i > 0 {
        lemma_ascii_offset(s, i - 1);
        assert((s[i - 1] as u32) < 0x80);
    }
}

/// The cell that row `y`, column `x` of the screen shows when the rows
/// `rows` are drawn: the row's character white on black, a white-on-black
/// blank past its end, a black blank on a row past the text.
pub open spec fn shown_cell(rows: Seq<Seq<char>>, y: int, x: int) -> u16 {
    if y < rows.len() {
        if x < rows[y].len() {
            vga_entry(rows[y][x], VgaColor::BLACK, VgaColor::WHITE)
        } else {
            vga_entry(' ', VgaColor::BLACK, VgaColor::WHITE)
        }
    } else {
        vga_entry(' ', VgaColor::BLACK, VgaColor::BLACK)
    }
}

/// Drawing rows of ASCII text, each no wider than the screen, puts each
/// row at the left of its screen row, white on black, padded with blanks,
/// and blanks every screen row past the text, whatever the screen showed
/// before.
pub proof fn lemma_render_ascii(cells: Seq<u16>, rows: Seq<Seq<char>>)
    requires
        cells.len() == TERMINAL_CELLS,
        rows.len() <= TERMINAL_HEIGHT,
        forall|y: int| 0 <= y < rows.len() ==> (#[trigger] rows[y]).len() <= TERMINAL_WIDTH,
        forall|y: int| 0 <= y < rows.len() ==> is_ascii_chars(#[trigger] rows[y]),
    ensures
        render(cells, rows, TERMINAL_HEIGHT as int).len() == TERMINAL_CELLS,
        forall|y: int, x: int|
            0 <= y < TERMINAL_HEIGHT && 0 <= x < TERMINAL_WIDTH ==> #[trigger] render(
                cells,
                rows,
                TERMINAL_HEIGHT as int,
            )[y * TERMINAL_WIDTH + x] == shown_cell(rows, y, x),
{
    lemma_render_ascii_prefix(cells, rows, TERMINAL_HEIGHT as int);
}

proof fn lemma_row_text_ascii(rows: Seq<Seq<char>>, y: int)
    requires
        0 <= y,
        y < rows.len() ==> rows[y].len() <= TERMINAL_WIDTH && is_ascii_chars(rows[y]),
    ensures
        is_ascii_chars(row_text(rows, y)),
        row_text(rows, y).len() == TERMINAL_WIDTH,
        forall|x: int|
            0 <= x < TERMINAL_WIDTH ==> vga_entry(
                #[trigger] row_text(rows, y)[x],
                VgaColor::BLACK,
                row_fg(rows, y),
            ) == shown_cell(rows, y, x),
{
    if y < rows.len() {
        let r = rows[y];
        lemma_ascii_offset(r, r.len() as int);
        let t = row_text(rows, y);
        assert(t == r + blanks((TERMINAL_WIDTH - r.len()) as nat));
        assert forall|i: int| 0 <= i < t.len() implies (#[trigger] t[i] as u32) < 0x80 by {
            if i < r.len() {
                assert(t[i] == r[i]);
            } else {
                assert(t[i] == ' ');
            }
        }
        assert forall|x: int| 0 <= x < TERMINAL_WIDTH implies vga_entry(
            #[trigger] row_text(rows, y)[x],
            VgaColor::BLACK,
            row_fg(rows, y),
        ) == shown_cell(rows, y, x) by {
            if x < r.len() {
                assert(t[x] == r[x]);
            } else {
                assert(t[x] == ' ');
            }
        }
    }
}

proof fn lemma_render_ascii_prefix(cells: Seq<u16>, rows: Seq<Seq<char>>, n: int)
    requires
        cells.len() == TERMINAL_CELLS,
        0 <= n <= TERMINAL_HEIGHT,
        rows.len() <= TERMINAL_HEIGHT,
        forall|y: int| 0 <= y < rows.len() ==> (#[trigger] rows[y]).len() <= TERMINAL_WIDTH,
        forall|y: int| 0 <= y < rows.len() ==> is_ascii_chars(#[trigger] rows[y]),
    ensures
        render(cells, rows, n).len() == TERMINAL_CELLS,
        forall|y: int, x: int|
            0 <= y < n && 0 <= x < TERMINAL_WIDTH ==> #[trigger] render(cells, rows, n)[y
                * TERMINAL_WIDTH + x] == shown_cell(rows, y, x),
        forall|k: int|
            n * TERMINAL_WIDTH <= k < TERMINAL_CELLS ==> #[trigger] render(cells, rows, n)[k]
                == cells[k],
    decreases n,
{
    if n > 0 {
        let y0 = n - 1;
        lemma_render_ascii_prefix(cells, rows, y0);
        let prev = render(cells, rows, y0);
        let t = row_text(rows, y0);
        lemma_row_text_ascii(rows, y0);
        let start = y0 * TERMINAL_WIDTH;
        assert forall|i: int| 0 <= i <= t.len() implies #[trigger] byte_offset(t, i) == i by {
            lemma_ascii_offset(t, i);
        }
        assert(utf8_len(t) == TERMINAL_WIDTH);
        assert(start + TERMINAL_WIDTH <= TERMINAL_CELLS) by (nonlinear_arith)
            requires
                y0 < TERMINAL_HEIGHT,
                start == y0 * TERMINAL_WIDTH,
        ;
        assert(fits_on_screen(start, t));
        lemma_painted_cells(prev, start, t, VgaColor::BLACK, row_fg(rows, y0));
        let cur = render(cells, rows, n);
        assert(cur == painted(prev, start, t, VgaColor::BLACK, row_fg(rows, y0)));
        assert forall|y: int, x: int| 0 <= y < n && 0 <= x < TERMINAL_WIDTH implies #[trigger] cur[y
            * TERMINAL_WIDTH + x] == shown_cell(rows, y, x) by {
            if y == y0 {
                assert(cur[start + byte_offset(t, x)] == vga_entry(
                    t[x],
                    VgaColor::BLACK,
                    row_fg(rows, y0),
                ));
            } else {
                let k = y * TERMINAL_WIDTH + x;
                assert(k < start) by (nonlinear_arith)
                    requires
                        y < y0,
                        x < TERMINAL_WIDTH,
                        k == y * TERMINAL_WIDTH + x,
                        start == y0 * TERMINAL_WIDTH,
                ;
                assert(0 <= k) by (nonlinear_arith)
                    requires
                        0 <= y,
                        0 <= x,
                        k == y * TERMINAL_WIDTH + x,
                ;
            }
        }
        assert forall|k: int| n * TERMINAL_WIDTH <= k < TERMINAL_CELLS implies #[trigger] cur[k]
            == cells[k] by {
            assert(prev[k] == cells[k]);
        }
    }
}

/// The rows of ASCII text are ASCII.
proof fn lemma_chunks_ascii(s: Seq<char>)
    requires
        is_ascii_chars(s),
    ensures
        forall|k: int| 0 <= k < chunks(s).len() ==> is_ascii_chars(#[trigger] chunks(s)[k]),
    decreases s.len(),
{
    if s.len() > TERMINAL_WIDTH {
        let rest = s.skip(TERMINAL_WIDTH as int);
        assert forall|i: int| 0 <= i < rest.len() implies (#[trigger] rest[i] as u32) < 0x80 by {
            assert(rest[i] == s[i + TERMINAL_WIDTH]);
        }
        lemma_chunks_ascii(rest);
        let first = s.take(TERMINAL_WIDTH as int);
        assert forall|i: int| 0 <= i < first.len() implies (#[trigger] first[i] as u32) < 0x80 by {
            assert(first[i] == s[i]);
        }
        assert forall|k: int| 0 <= k < chunks(s).len() implies is_ascii_chars(#[trigger] chunks(s)[k]) by {
            if k > 0 {
                assert(chunks(s)[k] == chunks(rest)[k - 1]);
            }
        }
    }
}

proof fn lemma_rows_acc_ascii(t: Seq<char>, n: int)
    requires
        is_ascii_chars(t),
        n <= t.len(),
    ensures
        is_ascii_chars(rows_acc(t, n).1),
        forall|k: int|
            0 <= k < rows_acc(t, n).0.len() ==> is_ascii_chars(#[trigger] rows_acc(t, n).0[k]),
    decreases n,
{
    if n > 0 {
        lemma_rows_acc_ascii(t, n - 1);
        let (rows, cur) = rows_acc(t, n - 1);
        if t[n - 1] == '\n' {
            let sc = strip_cr(cur);
            assert forall|i: int| 0 <= i < sc.len() implies (#[trigger] sc[i] as u32) < 0x80 by {
                assert(sc[i] == cur[i]);
            }
            lemma_chunks_ascii(sc);
            let all = rows_acc(t, n).0;
            assert forall|k: int| 0 <= k < all.len() implies is_ascii_chars(#[trigger] all[k]) by {
                if k >= rows.len() {
                    assert(all[k] == chunks(sc)[k - rows.len()]);
                }
            }
        } else {
            let nc = rows_acc(t, n).1;
            assert forall|i: int| 0 <= i < nc.len() implies (#[trigger] nc[i] as u32) < 0x80 by {
                if i < cur.len() {
                    assert(nc[i] == cur[i]);
                }
            }
        }
    }
}

/// Every row that ASCII text shows is ASCII; so the text can always be laid
/// out.
pub proof fn lemma_ascii_rows_fit(t: Seq<char>)
    requires
        is_ascii_chars(t),
    ensures
        forall|k: int| 0 <= k < visible_rows(t).len() ==> is_ascii_chars(#[trigger] visible_rows(t)[k]),
        rows_fit(visible_rows(t)),
{
    lemma_rows_acc_ascii(t, t.len() as int);
    lemma_rows_bounded(t);
    let (rows, cur) = rows_acc(t, t.len() as int);
    lemma_chunks_ascii(cur);
    let all = screen_rows(t);
    assert forall|k: int| 0 <= k < all.len() implies is_ascii_chars(#[trigger] all[k]) by {
        if k >= rows.len() {
            assert(all[k] == chunks(cur)[k - rows.len()]);
        }
    }
    let vis = visible_rows(t);
    assert forall|k: int| 0 <= k < vis.len() implies is_ascii_chars(#[trigger] vis[k]) by {
        if all.len() > TERMINAL_HEIGHT {
            assert(vis[k] == all[k + all.len() - TERMINAL_HEIGHT]);
        }
    }
    assert forall|y: int| 0 <= y < vis.len() implies utf8_len(#[trigger] vis[y]) <= TERMINAL_WIDTH by {
        lemma_ascii_offset(vis[y], vis[y].len() as int);
    }
}

/// The decimal digits of a number are ASCII.
pub proof fn lemma_decimal_ascii(n: nat)
    ensures
        is_ascii_chars(decimal(n)),
    decreases n,
{
    if n >= 10 {
        lemma_decimal_ascii(n / 10);
        let d = decimal(n);
        assert forall|i: int| 0 <= i < d.len() implies (#[trigger] d[i] as u32) < 0x80 by {
            if i < d.len() - 1 {
                assert(d[i] == decimal(n / 10)[i]);
            }
        }
    }
}

/// A log line of ASCII level and message is ASCII.
pub proof fn lemma_log_line_ascii(millis: nat, level: Seq<char>, text: Seq<char>)
    requires
        is_ascii_chars(level),
        is_ascii_chars(text),
    ensures
        is_ascii_chars(log_line(millis, level, text)),
{
    lemma_decimal_ascii(millis);
    let l = log_line(millis, level, text);
    let a = seq!['['] + decimal(millis);
    let b = a + seq![']', ' ', '['];
    let c = b + level;
    let d = c + seq![']', ' '];
    let e = d + text;
    assert(l == e + seq!['\n']);
    assert forall|i: int| 0 <= i < l.len() implies (#[trigger] l[i] as u32) < 0x80 by {
        if i < a.len() {
            if i > 0 {
                assert(l[i] == decimal(millis)[i - 1]);
            }
        } else if i < b.len() {
        } else if i < c.len() {
            assert(l[i] == level[i - b.len()]);
        } else if i < d.len() {
        } else if i < e.len() {
            assert(l[i] == text[i - d.len()]);
        }
    }
}

/// ASCII text followed by ASCII text is ASCII.
pub proof fn lemma_concat_ascii(a: Seq<char>, b: Seq<char>)
    requires
        is_ascii_chars(a),
        is_ascii_chars(b),
    ensures
        is_ascii_chars(a + b),
{
    assert forall|i: int| 0 <= i < (a + b).len() implies (#[trigger] (a + b)[i] as u32) < 0x80 by {
        if i < a.len() {
            assert((a + b)[i] == a[i]);
        } else {
            assert((a + b)[i] == b[i - a.len()]);
        }
    }
}

/// For ASCII text what the screen shows depends on the text alone, not on
/// what the screen showed before: so printing `a` and then `b` shows what
/// printing `a` followed by `b` at once shows.
pub proof fn lemma_ascii_render_ignores_old_screen(s1: Seq<u16>, s2: Seq<u16>, t: Seq<char>)
    requires
        s1.len() == TERMINAL_CELLS,
        s2.len() == TERMINAL_CELLS,
        is_ascii_chars(t),
    ensures
        render(s1, visible_rows(t), TERMINAL_HEIGHT as int) == render(
            s2,
            visible_rows(t),
            TERMINAL_HEIGHT as int,
        ),
{
    lemma_rows_bounded(t);
    lemma_ascii_rows_fit(t);
    let vis = visible_rows(t);
    lemma_render_ascii(s1, vis);
    lemma_render_ascii(s2, vis);
    let r1 = render(s1, vis, TERMINAL_HEIGHT as int);
    let r2 = render(s2, vis, TERMINAL_HEIGHT as int);
    assert forall|k: int| 0 <= k < TERMINAL_CELLS implies r1[k] == r2[k] by {
        let y = k / 80;
        let x = k % 80;
        assert(k == y * TERMINAL_WIDTH + x);
        assert(0 <= y < TERMINAL_HEIGHT);
        assert(r1[y * TERMINAL_WIDTH + x] == shown_cell(vis, y, x));
        assert(r2[y * TERMINAL_WIDTH + x] == shown_cell(vis, y, x));
    }
    assert(r1 =~= r2);
}

/// The value of an upper-case hexadecimal digit, none for any other
/// character.
pub open spec fn hex_digit_value(c: char) -> Option<nat> {
    if '0' <= c && c <= '9' {
        Some((c as u32 - '0' as u32) as nat)
    } else if 'A' <= c && c <= 'F' {
        Some((c as u32 - 'A' as u32 + 10) as nat)
    } else {
        None
    }
}

/// The number that the characters `s` write in base 16, none if one of
/// them is no upper-case hexadecimal digit.
pub open spec fn read_hex(s: Seq<char>) -> Option<nat>
    decreases s.len(),
{
    if s.len() == 0 {
        Some(0)
    } else {
        match (read_hex(s.drop_last()), hex_digit_value(s.last())) {
            (Some(a), Some(d)) => Some(a * 16 + d),
            _ => None,
        }
    }
}

/// The value of a decimal digit, none for any other character.
pub open spec fn decimal_digit_value(c: char) -> Option<nat> {
    if '0' <= c && c <= '9' {
        Some((c as u32 - '0' as u32) as nat)
    } else {
        None
    }
}

/// The number that the characters `s` write in base 10, none if one of
/// them is no decimal digit.
pub open spec fn read_decimal(s: Seq<char>) -> Option<nat>
    decreases s.len(),
{
    if s.len() == 0 {
        Some(0)
    } else {
        match (read_decimal(s.drop_last()), decimal_digit_value(s.last())) {
            (Some(a), Some(d)) => Some(a * 10 + d),
            _ => None,
        }
    }
}

/// The hexadecimal numeral of `n` is upper-case base 16: every character
/// is one of `0`-`9` (the digits below ten, `'0'` plus the digit) or
/// `A`-`F`, there is no leading zero, and reading it back gives `n`.
pub proof fn lemma_hex_reads_back(n: nat)
    ensures
        read_hex(hex(n)) == Some(n),
        hex(n).len() > 0,
        forall|i: int| 0 <= i < hex(n).len() ==> (#[trigger] hex_digit_value(hex(n)[i])) is Some,
        n > 0 ==> hex(n)[0] != '0',
    decreases n,
{
    let h = hex(n);
    let d = n % 16;
    assert(hex_digit_value(hex_digit(d)) == Some(d));
    assert(h.last() == hex_digit(d));
    assert((n / 16) * 16 + n % 16 == n) by (nonlinear_arith);
    if n < 16 {
        assert(h.drop_last() =~= Seq::<char>::empty());
        assert(read_hex(h.drop_last()) == Some(0nat));
    } else {
        lemma_hex_reads_back(n / 16);
        assert(h.drop_last() =~= hex(n / 16));
        assert forall|i: int| 0 <= i < h.len() implies (#[trigger] hex_digit_value(h[i])) is Some by {
            if i < h.len() - 1 {
                assert(h[i] == hex(n / 16)[i]);
            }
        }
        assert(h[0] == hex(n / 16)[0]);
    }
}

/// The decimal numeral of `n` is base 10: every character is a digit,
/// there is no leading zero, and reading it back gives `n`.
pub proof fn lemma_decimal_reads_back(n: nat)
    ensures
        read_decimal(decimal(n)) == Some(n),
        decimal(n).len() > 0,
        forall|i: int| 0 <= i < decimal(n).len() ==> (#[trigger] decimal_digit_value(decimal(n)[i])) is Some,
        n > 0 ==> decimal(n)[0] != '0',
    decreases n,
{
    let h = decimal(n);
    let d = n % 10;
    assert(decimal_digit_value(digit(d)) == Some(d));
    assert(h.last() == digit(d));
    assert((n / 10) * 10 + n % 10 == n) by (nonlinear_arith);
    if n < 10 {
        assert(h.drop_last() =~= Seq::<char>::empty());
        assert(read_decimal(h.drop_last()) == Some(0nat));
    } else {
        lemma_decimal_reads_back(n / 10);
        assert(h.drop_last() =~= decimal(n / 10));
        assert forall|i: int| 0 <= i < h.len() implies (#[trigger] decimal_digit_value(h[i])) is Some by {
            if i < h.len() - 1 {
                assert(h[i] == decimal(n / 10)[i]);
            }
        }
        assert(h[0] == decimal(n / 10)[0]);
    }
}

/// A line is cut into rows of exactly `TERMINAL_WIDTH` characters but the
/// last, and there are as many rows as it takes to hold the line.
pub proof fn lemma_chunks_full(s: Seq<char>)
    ensures
        forall|k: int|
            0 <= k < chunks(s).len() - 1 ==> (#[trigger] chunks(s)[k]).len() == TERMINAL_WIDTH,
        chunks(s).len() == (s.len() + TERMINAL_WIDTH - 1) / (TERMINAL_WIDTH as int),
    decreases s.len(),
{
    if s.len() > TERMINAL_WIDTH {
        let rest = s.skip(TERMINAL_WIDTH as int);
        lemma_chunks_full(rest);
        assert forall|k: int| 0 <= k < chunks(s).len() - 1 implies (
        #[trigger] chunks(s)[k]).len() == TERMINAL_WIDTH by {
            if k > 0 {
                assert(chunks(s)[k] == chunks(rest)[k - 1]);
            }
        }
    }
}

/// Whether the character at `i` of `t` is shown: every character but the
/// line breaks and a carriage return right before a line break.
pub open spec fn shown_char(t: Seq<char>, i: int) -> bool {
    &&& t[i] != '\n'
    &&& !(t[i] == '\r' && i + 1 < t.len() && t[i + 1] == '\n')
}

/// The characters of `t[..n]` that are shown, in order.
pub open spec fn shown_chars(t: Seq<char>, n: int) -> Seq<char>
    decreases n,
{
    if n <= 0 {
        Seq::empty()
    } else if shown_char(t, n - 1) {
        shown_chars(t, n - 1).push(t[n - 1])
    } else {
        shown_chars(t, n - 1)
    }
}

/// A carriage return in `t[..n]` that the next character of `t` will drop.
pub open spec fn pending_cr(t: Seq<char>, n: int) -> Seq<char> {
    if 0 < n < t.len() && t[n - 1] == '\r' && t[n] == '\n' {
        seq!['\r']
    } else {
        Seq::empty()
    }
}

proof fn lemma_rows_acc_flatten(t: Seq<char>, n: int)
    requires
        0 <= n <= t.len(),
    ensures
        rows_acc(t, n).0.flatten() + rows_acc(t, n).1 == shown_chars(t, n) + pending_cr(t, n),
        rows_acc(t, n).1.len() > 0 ==> rows_acc(t, n).1.last() == t[n - 1],
        rows_acc(t, n).1.len() == 0 ==> (n == 0 || t[n - 1] == '\n'),
    decreases n,
{
    if n > 0 {
        lemma_rows_acc_flatten(t, n - 1);
        let (rows, cur) = rows_acc(t, n - 1);
        let c = t[n - 1];
        if c == '\n' {
            let sc = strip_cr(cur);
            lemma_chunks_flatten(sc);
            vstd::seq_lib::lemma_flatten_concat(rows, chunks(sc));
            if cur.len() > 0 && cur.last() == '\r' {
                assert(pending_cr(t, n - 1) =~= seq!['\r']);
                let whole = rows.flatten() + cur;
                assert(whole == shown_chars(t, n - 1) + seq!['\r']);
                assert(whole.drop_last() =~= rows.flatten() + sc);
                assert(whole.drop_last() =~= shown_chars(t, n - 1));
            } else {
                assert(pending_cr(t, n - 1) =~= Seq::<char>::empty());
                assert(rows.flatten() + sc =~= shown_chars(t, n - 1));
            }
            assert(shown_chars(t, n) == shown_chars(t, n - 1));
            assert(rows_acc(t, n).0.flatten() + rows_acc(t, n).1 =~= shown_chars(t, n) + pending_cr(
                t,
                n,
            ));
        } else {
            assert(pending_cr(t, n - 1) =~= Seq::<char>::empty());
            if shown_char(t, n - 1) {
                assert(pending_cr(t, n) =~= Seq::<char>::empty());
                assert(rows.flatten() + cur.push(c) =~= (rows.flatten() + cur).push(c));
            } else {
                assert(pending_cr(t, n) =~= seq!['\r']);
                assert(rows.flatten() + cur.push(c) =~= rows.flatten() + cur + seq!['\r']);
            }
        }
    }
}

/// Laying text out loses nothing but its line breaks and the carriage
/// return right before each: the shown rows of all the text, put end to
/// end, are its other characters in order.
pub proof fn lemma_rows_hold_the_text(t: Seq<char>)
    ensures
        screen_rows(t).flatten() == shown_chars(t, t.len() as int),
{
    lemma_rows_acc_flatten(t, t.len() as int);
    let (rows, cur) = rows_acc(t, t.len() as int);
    lemma_chunks_flatten(cur);
    vstd::seq_lib::lemma_flatten_concat(rows, chunks(cur));
    assert(pending_cr(t, t.len() as int) =~= Seq::<char>::empty());
}

/// The screen shows the last rows of the text: as many as fit, up to
/// `TERMINAL_HEIGHT`, ending with the text's last row.
pub proof fn lemma_visible_rows_are_the_last(t: Seq<char>)
    ensures
        visible_rows(t).len() == (if screen_rows(t).len() < TERMINAL_HEIGHT {
            screen_rows(t).len() as int
        } else {
            TERMINAL_HEIGHT as int
        }),
        forall|k: int|
            0 <= k < visible_rows(t).len() ==> #[trigger] visible_rows(t)[k] == screen_rows(t)[k
                + screen_rows(t).len() - visible_rows(t).len()],
{
}

} // verus!

use vstd::prelude::*;
use vstd::string::StringSliceAdditionalSpecFns;
use volatile::Volatile;

verus! {

/// Number of rows of the text grid.
pub const BUFFER_HEIGHT: usize = 25;

/// Number of columns of the text grid.
pub const BUFFER_WIDTH: usize = 80;

/// Number of cells of the text grid.
pub const BUFFER_CELLS: usize = BUFFER_HEIGHT * BUFFER_WIDTH;

/// Glyph drawn in place of a byte outside the printable range.
pub const PLACEHOLDER: u8 = 0xfe;

/// The `volatile` crate's cell, whose reads and writes the optimiser may
/// neither drop nor reorder; opaque to proofs.
#[verifier::external_type_specification]
#[verifier::external_body]
#[verifier::reject_recursive_types(T)]
pub struct ExVolatile<T: Copy>(Volatile<T>);

/// The sixteen colours of the text-mode palette.
#[derive(Clone, Copy, Debug, PartialEq, Eq, Structural)]
pub enum Colour {
    Black,
    Blue,
    Green,
    Cyan,
    Red,
    Magenta,
    Brown,
    LightGrey,
    DarkGrey,
    LightBlue,
    LightGreen,
    LightCyan,
    LightRed,
    Pink,
    Yellow,
    White,
}

impl Colour {
    /// Palette index of the colour.
    pub open spec fn spec_index(self) -> u8 {
        match self {
            Colour::Black => 0,
            Colour::Blue => 1,
            Colour::Green => 2,
            Colour::Cyan => 3,
            Colour::Red => 4,
            Colour::Magenta => 5,
            Colour::Brown => 6,
            Colour::LightGrey => 7,
            Colour::DarkGrey => 8,
            Colour::LightBlue => 9,
            Colour::LightGreen => 10,
            Colour::LightCyan => 11,
            Colour::LightRed => 12,
            Colour::Pink => 13,
            Colour::Yellow => 14,
            Colour::White => 15,
        }
    }

    /// Palette index of the colour, 0 to 15.
    pub fn index(&self) -> (r: u8)
        ensures
            r == self.spec_index(),
            r < 16,
    {
        match self {
            Colour::Black => 0,
            Colour::Blue => 1,
            Colour::Green => 2,
            Colour::Cyan => 3,
            Colour::Red => 4,
            Colour::Magenta => 5,
            Colour::Brown => 6,
            Colour::LightGrey => 7,
            Colour::DarkGrey => 8,
            Colour::LightBlue => 9,
            Colour::LightGreen => 10,
            Colour::LightCyan => 11,
            Colour::LightRed => 12,
            Colour::Pink => 13,
            Colour::Yellow => 14,
            Colour::White => 15,
        }
    }
}

/// Packed attribute byte: background in the high nibble, foreground in the low one.
#[derive(Clone, Copy, Debug, PartialEq, Eq, Structural)]
pub struct ColourCode(pub u8);

impl ColourCode {
    /// Pack a foreground and a background colour into one attribute byte.
    pub fn new(foreground: Colour, background: Colour) -> (r: ColourCode)
        ensures
            r.0 == background.spec_index() * 16 + foreground.spec_index(),
    {
        let f = foreground.index();
        let b = background.index();
        let packed: u8 = b * 16 + f;
        assert((b << 4u8) | f == packed) by (bit_vector)
            requires
                b < 16,
                f < 16,
                packed == b * 16 + f,
        ;
        ColourCode((b << 4u8) | f)
    }
}

/// One cell of the grid: a byte and its attribute.
#[derive(Clone, Copy, Debug, PartialEq, Eq, Structural)]
pub struct ScreenChar {
    pub ascii_char: u8,
    pub colour_code: ColourCode,
}

/// What a volatile cell of the grid currently holds.
pub uninterp spec fn cell_content(v: Volatile<ScreenChar>) -> ScreenChar;

/// Relies on volatile::Volatile::new: the new cell holds the given value.
#[verifier::external_body]
fn new_cell(c: ScreenChar) -> (r: Volatile<ScreenChar>)
    ensures
        cell_content(r) == c,
{
    Volatile::new(c)
}

/// Relies on volatile::Volatile::read: a volatile read of the value the cell holds.
#[verifier::external_body]
fn read_cell(v: &Volatile<ScreenChar>) -> (r: ScreenChar)
    ensures
        r == cell_content(*v),
{
    v.read()
}

/// Relies on volatile::Volatile::write: a volatile store of the value into the cell.
#[verifier::external_body]
fn write_cell(v: &mut Volatile<ScreenChar>, c: ScreenChar)
    ensures
        cell_content(*final(v)) == c,
{
    v.write(c)
}


/// A blank cell drawn in the given attribute.
pub open spec fn blank(attr: ColourCode) -> ScreenChar {
    ScreenChar { ascii_char: 0x20, colour_code: attr }
}

/// A row of blank cells.
pub open spec fn blank_row(attr: ColourCode) -> Seq<ScreenChar> {
    Seq::new(BUFFER_WIDTH as nat, |_c: int| blank(attr))
}

/// Bytes that are drawn as they are: space to tilde, and the line break.
pub open spec fn is_printable(b: u8) -> bool {
    (0x20 <= b && b <= 0x7e) || b == 0x0a
}

/// The byte actually handed to the grid for an input byte.
pub open spec fn shown_byte(b: u8) -> u8 {
    if is_printable(b) {
        b
    } else {
        PLACEHOLDER
    }
}

/// Abstract state of a writer: cursor column on the last row, current
/// attribute, and the grid as rows of cells.
pub struct ScreenModel {
    pub cursor: nat,
    pub attr: ColourCode,
    pub grid: Seq<Seq<ScreenChar>>,
}

impl ScreenModel {
    /// The grid has its fixed shape and the cursor lies within the last row
    /// (or just past its end).
    pub open spec fn wf(self) -> bool {
        &&& self.cursor <= BUFFER_WIDTH
        &&& self.grid.len() == BUFFER_HEIGHT
        &&& forall|r: int| 0 <= r < BUFFER_HEIGHT ==> #[trigger] self.grid[r].len() == BUFFER_WIDTH
    }

    /// Line break: every row moves up by one, the last row is blanked and
    /// the cursor goes back to column 0.
    pub open spec fn scroll(self) -> ScreenModel {
        ScreenModel {
            cursor: 0,
            attr: self.attr,
            grid: self.grid.subrange(1, BUFFER_HEIGHT as int).push(blank_row(self.attr)),
        }
    }

    /// Blank one row in the current attribute.
    pub open spec fn clear(self, row: int) -> ScreenModel {
        ScreenModel { grid: self.grid.update(row, blank_row(self.attr)), ..self }
    }

    /// Draw a byte at the cursor, which must lie inside the last row.
    pub open spec fn draw(self, b: u8) -> ScreenModel {
        let last = BUFFER_HEIGHT - 1;
        ScreenModel {
            cursor: self.cursor + 1,
            attr: self.attr,
            grid: self.grid.update(
                last,
                self.grid[last].update(self.cursor as int, ScreenChar { ascii_char: b, colour_code: self.attr }),
            ),
        }
    }

    /// Effect of handing one byte to the writer.
    pub open spec fn put(self, b: u8) -> ScreenModel {
        if b == 0x0a {
            self.scroll()
        } else if self.cursor >= BUFFER_WIDTH {
            self.scroll().draw(b)
        } else {
            self.draw(b)
        }
    }

    /// Effect of writing a byte string, with each byte substituted as
    /// `shown_byte` says.
    pub open spec fn put_all(self, bytes: Seq<u8>) -> ScreenModel
        decreases bytes.len(),
    {
        if bytes.len() == 0 {
            self
        } else {
            self.put_all(bytes.drop_last()).put(shown_byte(bytes.last()))
        }
    }

    /// The cell at a row and column.
    pub open spec fn at(self, row: int, col: int) -> ScreenChar {
        self.grid[row][col]
    }
}

/// A run of `n` line breaks.
pub open spec fn line_breaks(n: nat) -> Seq<u8> {
    Seq::new(n, |_i: int| 0x0au8)
}

/// The cell that a byte written in attribute `attr` becomes.
pub open spec fn drawn(b: u8, attr: ColourCode) -> ScreenChar {
    ScreenChar { ascii_char: shown_byte(b), colour_code: attr }
}

/// Every step of the writer keeps the grid's shape and the attribute.
pub proof fn lemma_put_all_wf(m: ScreenModel, bytes: Seq<u8>)
    requires
        m.wf(),
    ensures
        m.put_all(bytes).wf(),
        m.put_all(bytes).attr == m.attr,
    decreases bytes.len(),
{
    if bytes.len() > 0 {
        lemma_put_all_wf(m, bytes.drop_last());
    }
}

/// Writing `a` and then `b` is writing `a + b`.
pub proof fn lemma_put_all_append(m: ScreenModel, a: Seq<u8>, b: Seq<u8>)
    ensures
        m.put_all(a + b) == m.put_all(a).put_all(b),
    decreases b.len(),
{
    if b.len() == 0 {
        assert(a + b =~= a);
    } else {
        lemma_put_all_append(m, a, b.drop_last());
        assert((a + b).drop_last() =~= a + b.drop_last());
        assert((a + b).last() == b.last());
    }
}

/// Bytes without a line break that fit in the rest of the last row are
/// drawn there one after the other, each as its shown glyph, starting at
/// the cursor; the other cells and rows stay as they were.
pub proof fn lemma_one_line(m: ScreenModel, s: Seq<u8>)
    requires
        m.wf(),
        m.cursor + s.len() <= BUFFER_WIDTH,
        forall|i: int| 0 <= i < s.len() ==> s[i] != 0x0a,
    ensures
        m.put_all(s).wf(),
        m.put_all(s).attr == m.attr,
        m.put_all(s).cursor == m.cursor + s.len(),
        forall|r: int| 0 <= r < BUFFER_HEIGHT - 1 ==> #[trigger] m.put_all(s).grid[r] == m.grid[r],
        forall|c: int|
            0 <= c < BUFFER_WIDTH ==> #[trigger] m.put_all(s).at(BUFFER_HEIGHT - 1, c) == if m.cursor <= c
                < m.cursor + s.len() {
                drawn(s[c - m.cursor], m.attr)
            } else {
                m.at(BUFFER_HEIGHT - 1, c)
            },
    decreases s.len(),
{
    if s.len() > 0 {
        let p = s.drop_last();
        lemma_one_line(m, p);
        let mid = m.put_all(p);
        assert(shown_byte(s.last()) != 0x0a);
        assert forall|c: int| 0 <= c < BUFFER_WIDTH implies #[trigger] m.put_all(s).at(
            BUFFER_HEIGHT - 1,
            c,
        ) == if m.cursor <= c < m.cursor + s.len() {
            drawn(s[c - m.cursor], m.attr)
        } else {
            m.at(BUFFER_HEIGHT - 1, c)
        } by {
            assert(mid.at(BUFFER_HEIGHT - 1, c) == if m.cursor <= c < m.cursor + p.len() {
                drawn(p[c - m.cursor], m.attr)
            } else {
                m.at(BUFFER_HEIGHT - 1, c)
            });
        }
    }
}

/// A printable line no longer than the width, written from column 0, reads
/// back from the first cells of the last row exactly as it was written.
pub proof fn lemma_printable_reads_back(m: ScreenModel, s: Seq<u8>)
    requires
        m.wf(),
        m.cursor == 0,
        s.len() <= BUFFER_WIDTH,
        forall|i: int| 0 <= i < s.len() ==> 0x20 <= #[trigger] s[i] <= 0x7e,
    ensures
        forall|i: int|
            0 <= i < s.len() ==> #[trigger] m.put_all(s).at(BUFFER_HEIGHT - 1, i).ascii_char == s[i],
{
    lemma_one_line(m, s);
    assert forall|i: int| 0 <= i < s.len() implies #[trigger] m.put_all(s).at(BUFFER_HEIGHT - 1, i).ascii_char
        == s[i] by {
        assert(m.put_all(s).at(BUFFER_HEIGHT - 1, i) == drawn(s[i], m.attr));
    }
}

/// In a line written from column 0, a byte outside the printable range
/// shows as the placeholder glyph, never as itself.
pub proof fn lemma_non_printable_placeholder(m: ScreenModel, s: Seq<u8>, i: int)
    requires
        m.wf(),
        m.cursor == 0,
        s.len() <= BUFFER_WIDTH,
        forall|j: int| 0 <= j < s.len() ==> s[j] != 0x0a,
        0 <= i < s.len(),
        !is_printable(s[i]),
    ensures
        m.put_all(s).at(BUFFER_HEIGHT - 1, i).ascii_char == PLACEHOLDER,
        s[i] != PLACEHOLDER ==> m.put_all(s).at(BUFFER_HEIGHT - 1, i).ascii_char != s[i],
{
    lemma_one_line(m, s);
    assert(m.put_all(s).at(BUFFER_HEIGHT - 1, i) == drawn(s[i], m.attr));
}

/// A line longer than the width, written from column 0 without a line
/// break, wraps: its first `width` bytes end up on the row above the
/// cursor row, the rest at the start of the cursor row.
pub proof fn lemma_wrap(m: ScreenModel, s: Seq<u8>)
    requires
        m.wf(),
        m.cursor == 0,
        BUFFER_WIDTH < s.len() <= 2 * BUFFER_WIDTH,
        forall|i: int| 0 <= i < s.len() ==> s[i] != 0x0a,
    ensures
        m.put_all(s).cursor == s.len() - BUFFER_WIDTH,
        forall|c: int|
            0 <= c < BUFFER_WIDTH ==> #[trigger] m.put_all(s).at(BUFFER_HEIGHT - 2, c) == drawn(
                s[c],
                m.attr,
            ),
        forall|c: int|
            0 <= c < s.len() - BUFFER_WIDTH ==> #[trigger] m.put_all(s).at(BUFFER_HEIGHT - 1, c)
                == drawn(s[BUFFER_WIDTH + c], m.attr),
{
    let w = BUFFER_WIDTH as int;
    let a = s.subrange(0, w);
    let b0 = s.subrange(w, w + 1);
    let rest = s.subrange(w + 1, s.len() as int);
    assert(s =~= a + b0 + rest);
    lemma_put_all_append(m, a + b0, rest);
    lemma_put_all_append(m, a, b0);
    lemma_one_line(m, a);
    let m1 = m.put_all(a);
    assert(b0.drop_last() =~= Seq::<u8>::empty());
    assert(m1.put_all(Seq::<u8>::empty()) == m1);
    assert(b0.last() == s[w]);
    assert(shown_byte(s[w]) != 0x0a);
    let m2 = m1.put_all(b0);
    assert(m2 == m1.scroll().draw(shown_byte(s[w])));
    assert(m2.wf());
    lemma_one_line(m2, rest);
    let r = m2.put_all(rest);
    assert forall|c: int| 0 <= c < BUFFER_WIDTH implies #[trigger] r.at(BUFFER_HEIGHT - 2, c) == drawn(
        s[c],
        m.attr,
    ) by {
        assert(r.grid[BUFFER_HEIGHT - 2] == m2.grid[BUFFER_HEIGHT - 2]);
        assert(m1.at(BUFFER_HEIGHT - 1, c) == drawn(a[c], m.attr));
    }
    assert forall|c: int| 0 <= c < s.len() - BUFFER_WIDTH implies #[trigger] r.at(BUFFER_HEIGHT - 1, c)
        == drawn(s[BUFFER_WIDTH + c], m.attr) by {
        if c > 0 {
            assert(r.at(BUFFER_HEIGHT - 1, c) == drawn(rest[c - 1], m.attr));
        } else {
            assert(r.at(BUFFER_HEIGHT - 1, c) == m2.at(BUFFER_HEIGHT - 1, 0));
        }
    }
}

/// After `n` line breaks the last `n` rows (all rows, once `n` reaches the
/// height) are blank in the current attribute and the grid keeps its shape.
proof fn lemma_line_breaks_rows(m: ScreenModel, n: nat)
    requires
        m.wf(),
    ensures
        m.put_all(line_breaks(n)).wf(),
        m.put_all(line_breaks(n)).attr == m.attr,
        n > 0 ==> m.put_all(line_breaks(n)).cursor == 0,
        forall|r: int|
            0 <= r && BUFFER_HEIGHT - n <= r < BUFFER_HEIGHT ==> #[trigger] m.put_all(line_breaks(n)).grid[r]
                == blank_row(m.attr),
    decreases n,
{
    if n > 0 {
        lemma_line_breaks_rows(m, (n - 1) as nat);
        assert(line_breaks(n).drop_last() =~= line_breaks((n - 1) as nat));
        let prev = m.put_all(line_breaks((n - 1) as nat));
        assert(line_breaks(n).last() == 0x0a);
        assert(m.put_all(line_breaks(n)) == prev.scroll());
        assert(prev.wf());
        assert forall|r: int| 0 <= r && BUFFER_HEIGHT - n <= r < BUFFER_HEIGHT implies #[trigger] m.put_all(
            line_breaks(n),
        ).grid[r] == blank_row(m.attr) by {
            if r < BUFFER_HEIGHT - 1 {
                assert(prev.grid[r + 1] == blank_row(m.attr));
                assert(prev.scroll().grid[r] == prev.grid[r + 1]);
            } else {
                assert(prev.scroll().grid[r] == blank_row(m.attr));
            }
        }
    }
}

/// Any number of line breaks, at least the height, leaves a well-formed grid
/// in which every cell is a blank in the current attribute.
pub proof fn lemma_line_breaks_blank(m: ScreenModel, n: nat)
    requires
        m.wf(),
        n >= BUFFER_HEIGHT,
    ensures
        m.put_all(line_breaks(n)).wf(),
        m.put_all(line_breaks(n)).cursor == 0,
        forall|r: int, c: int|
            0 <= r < BUFFER_HEIGHT && 0 <= c < BUFFER_WIDTH ==> #[trigger] m.put_all(line_breaks(n)).at(r, c)
                == blank(m.attr),
{
    lemma_line_breaks_rows(m, n);
}

/// Rows of a grid stored row after row.
pub open spec fn rows_of(flat: Seq<ScreenChar>) -> Seq<Seq<ScreenChar>> {
    Seq::new(
        BUFFER_HEIGHT as nat,
        |r: int| Seq::new(BUFFER_WIDTH as nat, |c: int| flat[r * BUFFER_WIDTH + c]),
    )
}

/// What each cell of a sequence of volatile cells holds.
pub open spec fn contents(cells: Seq<Volatile<ScreenChar>>) -> Seq<ScreenChar> {
    Seq::new(cells.len(), |i: int| cell_content(cells[i]))
}

/// The display driver: a text grid written through volatile cells, with the
/// cursor on the last row.
pub struct Writer {
    cursor_column: usize,
    colour_code: ColourCode,
    cells: Vec<Volatile<ScreenChar>>,
}

impl View for Writer {
    type V = ScreenModel;

    closed spec fn view(&self) -> ScreenModel {
        ScreenModel {
            cursor: self.cursor_column as nat,
            attr: self.colour_code,
            grid: rows_of(contents(self.cells@)),
        }
    }
}

impl Writer {
    /// The writer's storage has the grid's size and its cursor is in range.
    pub closed spec fn wf(&self) -> bool {
        &&& self.cells@.len() == BUFFER_CELLS
        &&& self.cursor_column <= BUFFER_WIDTH
    }

    /// A writer over a grid of blank cells in the given attribute, with the
    /// cursor at column 0.
    pub fn new(colour_code: ColourCode) -> (w: Writer)
        ensures
            w.wf(),
            w@.wf(),
            w@.cursor == 0,
            w@.attr == colour_code,
            w@.grid == Seq::new(BUFFER_HEIGHT as nat, |_r: int| blank_row(colour_code)),
    {
        let blank_cell = ScreenChar { ascii_char: 0x20, colour_code };
        let mut cells: Vec<Volatile<ScreenChar>> = Vec::new();
        let mut i: usize = 0;
        while i < BUFFER_CELLS
            invariant
                i <= BUFFER_CELLS,
                cells@.len() == i,
                forall|j: int| 0 <= j < i ==> #[trigger] cell_content(cells@[j]) == blank_cell,
            decreases BUFFER_CELLS - i,
        {
            cells.push(new_cell(blank_cell));
            i = i + 1;
        }
        let w = Writer { cursor_column: 0, colour_code, cells };
        proof {
            lemma_rows_shape(contents(w.cells@));
            assert(w@.grid =~~= Seq::new(BUFFER_HEIGHT as nat, |_r: int| blank_row(colour_code)));
        }
        w
    }

    /// Write a string byte by byte; a byte outside the printable range is
    /// drawn as the placeholder glyph. Never fails.
    pub fn write_string(&mut self, s: &str)
        requires
            old(self).wf(),
        ensures
            final(self).wf(),
            final(self)@.wf(),
            final(self)@ == old(self)@.put_all(s.spec_bytes()),
    {
        let bytes = s.as_bytes();
        let mut i: usize = 0;
        while i < bytes.len()
            invariant
                self.wf(),
                bytes@ == s.spec_bytes(),
                i <= bytes@.len(),
                self@ == old(self)@.put_all(bytes@.subrange(0, i as int)),
            decreases bytes@.len() - i,
        {
            let byte = bytes[i];
            if (0x20 <= byte && byte <= 0x7e) || byte == 0x0a {
                self.write_byte(byte);
            } else {
                self.write_byte(PLACEHOLDER);
            }
            assert(bytes@.subrange(0, i + 1).drop_last() =~= bytes@.subrange(0, i as int));
            i = i + 1;
        }
        assert(bytes@.subrange(0, bytes@.len() as int) =~= bytes@);
        proof {
            lemma_view_wf(self);
        }
    }

    /// The cell at a row and column, read through its volatile cell.
    pub fn read_char(&self, row: usize, col: usize) -> (r: ScreenChar)
        requires
            self.wf(),
            row < BUFFER_HEIGHT,
            col < BUFFER_WIDTH,
        ensures
            r == self@.at(row as int, col as int),
    {
        proof {
            lemma_rows_shape(contents(self.cells@));
        }
        read_cell(&self.cells[row * BUFFER_WIDTH + col])
    }

    /// Column of the next byte on the last row.
    pub fn cursor_column(&self) -> (r: usize)
        ensures
            r == self@.cursor,
    {
        self.cursor_column
    }

    /// Attribute that new cells are drawn in.
    pub fn colour_code(&self) -> (r: ColourCode)
        ensures
            r == self@.attr,
    {
        self.colour_code
    }

    /// Hand one byte to the grid: a line break scrolls; any other byte is
    /// drawn at the cursor, after a scroll when the last row is full.
    pub fn write_byte(&mut self, byte: u8)
        requires
            old(self).wf(),
        ensures
            final(self).wf(),
            final(self)@.wf(),
            final(self)@ == old(self)@.put(byte),
    {
        if byte == 0x0a {
            self.new_line();
        } else {
            if self.cursor_column >= BUFFER_WIDTH {
                self.new_line();
            }
            let row = BUFFER_HEIGHT - 1;
            let col = self.cursor_column;
            let ghost mid = self@;
            let ghost prev = contents(self.cells@);
            let colour_code = self.colour_code;
            write_cell(&mut self.cells[row * BUFFER_WIDTH + col], ScreenChar { ascii_char: byte, colour_code });
            self.cursor_column = self.cursor_column + 1;
            proof {
                let cur = contents(self.cells@);
                assert(cur =~= prev.update(row * BUFFER_WIDTH + col, ScreenChar { ascii_char: byte, colour_code }));
                lemma_rows_shape(cur);
                lemma_rows_shape(prev);
                assert(self@.grid =~~= mid.draw(byte).grid);
                lemma_view_wf(self);
            }
        }
    }

    /// Scroll: every row moves up by one, the first row is lost, the last
    /// row is blanked and the cursor returns to column 0.
    pub fn new_line(&mut self)
        requires
            old(self).wf(),
        ensures
            final(self).wf(),
            final(self)@.wf(),
            final(self)@ == old(self)@.scroll(),
    {
        let ghost before = contents(self.cells@);
        let mut i: usize = 0;
        while i < BUFFER_CELLS - BUFFER_WIDTH
            invariant
                self.wf(),
                self.cursor_column == old(self).cursor_column,
                self.colour_code == old(self).colour_code,
                before == contents(old(self).cells@),
                i <= BUFFER_CELLS - BUFFER_WIDTH,
                before.len() == BUFFER_CELLS,
                forall|j: int|
                    0 <= j < BUFFER_CELLS ==> #[trigger] contents(self.cells@)[j] == if j < i {
                        before[j + BUFFER_WIDTH]
                    } else {
                        before[j]
                    },
            decreases BUFFER_CELLS - BUFFER_WIDTH - i,
        {
            let ghost prev = contents(self.cells@);
            let c = read_cell(&self.cells[i + BUFFER_WIDTH]);
            assert(prev[i + BUFFER_WIDTH] == before[i + BUFFER_WIDTH]);
            write_cell(&mut self.cells[i], c);
            assert(contents(self.cells@) =~= prev.update(i as int, c));
            i = i + 1;
        }
        let ghost shifted = contents(self.cells@);
        self.clear_row(BUFFER_HEIGHT - 1);
        self.cursor_column = 0;
        proof {
            lemma_rows_shape(shifted);
            lemma_rows_shape(before);
            lemma_rows_shape(contents(self.cells@));
            assert(self@.grid =~~= old(self)@.scroll().grid);
            lemma_view_wf(self);
        }
    }

    /// Blank every column of `row` in the current attribute.
    pub fn clear_row(&mut self, row: usize)
        requires
            old(self).wf(),
            row < BUFFER_HEIGHT,
        ensures
            final(self).wf(),
            final(self)@.wf(),
            final(self)@ == old(self)@.clear(row as int),
            forall|c: int|
                0 <= c < BUFFER_WIDTH ==> #[trigger] final(self)@.at(row as int, c) == blank(
                    old(self)@.attr,
                ),
    {
        let blank_cell = ScreenChar { ascii_char: 0x20, colour_code: self.colour_code };
        let ghost before = contents(self.cells@);
        let mut col: usize = 0;
        while col < BUFFER_WIDTH
            invariant
                self.wf(),
                self.cursor_column == old(self).cursor_column,
                self.colour_code == old(self).colour_code,
                row < BUFFER_HEIGHT,
                col <= BUFFER_WIDTH,
                blank_cell == blank(self.colour_code),
                before.len() == BUFFER_CELLS,
                forall|j: int|
                    0 <= j < BUFFER_CELLS ==> #[trigger] contents(self.cells@)[j] == if row * BUFFER_WIDTH <= j
                        < row * BUFFER_WIDTH + col {
                        blank_cell
                    } else {
                        before[j]
                    },
            decreases BUFFER_WIDTH - col,
        {
            let ghost prev = contents(self.cells@);
            let idx = row * BUFFER_WIDTH + col;
            write_cell(&mut self.cells[idx], blank_cell);
            assert(contents(self.cells@) =~= prev.update(idx as int, blank_cell));
            col = col + 1;
        }
        proof {
            lemma_rows_shape(contents(self.cells@));
            lemma_rows_shape(before);
            assert(self@.grid =~~= old(self)@.clear(row as int).grid);
            lemma_view_wf(self);
        }
    }
}

/// A well-formed writer has a well-formed model.
proof fn lemma_view_wf(w: &Writer)
    requires
        w.wf(),
    ensures
        w@.wf(),
{
    lemma_rows_shape(contents(w.cells@));
}

/// A stored grid of the right size has the grid's shape.
proof fn lemma_rows_shape(flat: Seq<ScreenChar>)
    ensures
        rows_of(flat).len() == BUFFER_HEIGHT,
        forall|r: int| 0 <= r < BUFFER_HEIGHT ==> #[trigger] rows_of(flat)[r].len() == BUFFER_WIDTH,
        forall|r: int, c: int|
            0 <= r < BUFFER_HEIGHT && 0 <= c < BUFFER_WIDTH ==> #[trigger] rows_of(flat)[r][c] == flat[r * BUFFER_WIDTH + c],
{
}

} // verus!

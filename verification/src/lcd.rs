//! Protocol driver for an HD44780-compatible character panel.
//!
//! The driver owns the pure protocol state (bus mode, display flags, row
//! geometry) and translates every logical operation into the exact sequence
//! of digital-line transitions and timing delays the panel requires.  The
//! sequence is returned as a list of [`Action`] values; an unverified shell
//! asserts the voltages and waits out the delays.

use vstd::prelude::*;

use crate::icons::Icon;

verus! {

// Commands
pub const LCD_CLEAR_DISPLAY: u8 = 0x01;
pub const LCD_RETURN_HOME: u8 = 0x02;
pub const LCD_ENTRY_MODE_SET: u8 = 0x04;
pub const LCD_DISPLAY_CONTROL: u8 = 0x08;
pub const LCD_FUNCTION_SET: u8 = 0x20;
pub const LCD_SET_CGRAM_ADDR: u8 = 0x40;
pub const LCD_SET_DDRAM_ADDR: u8 = 0x80;

// Display entry mode
pub const LCD_ENTRY_LEFT: u8 = 0x02;
pub const LCD_ENTRY_SHIFT_DECREMENT: u8 = 0x00;

// Display on/off control
pub const LCD_DISPLAY_ON: u8 = 0x04;
pub const LCD_CURSOR_OFF: u8 = 0x00;
pub const LCD_BLINK_OFF: u8 = 0x00;

// Function setting
pub const LCD_4BITMODE: u8 = 0x00;
pub const LCD_8BITMODE: u8 = 0x10;
pub const LCD_1LINE: u8 = 0x00;
pub const LCD_5X8DOTS: u8 = 0x00;
pub const LCD_2LINE: u8 = 0x08;

/// One of the digital output lines the driver is wired to.  `Data(i)` is the
/// `i`-th *present* data line, in pin order (4 or 8 of them).
#[derive(Clone, Copy, PartialEq, Eq, Structural, Debug)]
pub enum LineId {
    Rs,
    Rw,
    Enable,
    Data(u8),
}

/// One step of the electrical protocol: drive a line to 0 or 1, or hold for
/// the given number of microseconds.
#[derive(Clone, Copy, PartialEq, Eq, Structural, Debug)]
pub enum Action {
    SetLine(LineId, u8),
    DelayMicros(u64),
}

/// Construction is refused when the wiring is partial or ambiguous.
#[derive(Clone, Copy, PartialEq, Eq, Structural, Debug)]
pub enum ConfigError {
    /// The number of data pins marked unused is neither 0 nor 4.
    InvalidDataLineCount,
}

/// Protocol state of the panel: mode flag bytes and row geometry.  The
/// electrical side (which pins the lines live on) belongs to the shell that
/// executes the emitted [`Action`]s.
#[derive(Debug)]
pub struct LcdDriver {
    pub disp_func: u8,
    pub disp_mode: u8,
    pub disp_control: u8,
    pub num_cols: u8,
    pub num_rows: u8,
    pub row_offsets: [u8; 4],
    pub has_rw: bool,
    pub num_data: u8,
}

/// The enable-line pulse that clocks one nibble or byte into the panel:
/// settle low, assert high, then hold low again.
pub open spec fn pulse_seq() -> Seq<Action> {
    seq![
        Action::SetLine(LineId::Enable, 0),
        Action::DelayMicros(10),
        Action::SetLine(LineId::Enable, 1),
        Action::DelayMicros(10),
        Action::SetLine(LineId::Enable, 0),
        Action::DelayMicros(100),
    ]
}

/// Bit `i` of `v`, as the 0/1 level driven onto a data line.
pub open spec fn data_bit(v: u8, i: u8) -> u8 {
    (v >> i) & 1
}

/// The transitions of one 4-line transfer: the low nibble of `v` on data
/// lines 0-3, then an enable pulse.
pub open spec fn write4_seq(v: u8) -> Seq<Action> {
    Seq::new(4, |i: int| Action::SetLine(LineId::Data(i as u8), data_bit(v, i as u8))) + pulse_seq()
}

/// The transitions of one 8-line transfer: bit `i` of `v` on each of the
/// `nd` present data lines (absent lines are skipped, not zero-filled),
/// then an enable pulse.
pub open spec fn write8_seq(v: u8, nd: int) -> Seq<Action> {
    Seq::new(nd as nat, |i: int| Action::SetLine(LineId::Data(i as u8), data_bit(v, i as u8)))
        + pulse_seq()
}

impl LcdDriver {
    /// The bus transmits whole bytes at once when the 8-line mode flag is set.
    pub open spec fn eight_bit(self) -> bool {
        self.disp_func & LCD_8BITMODE != 0
    }

    /// Well-formed protocol state: 4 or 8 data lines, a column count the
    /// 8-bit DDRAM offset arithmetic can carry, and offsets derived from it.
    pub open spec fn wf(self) -> bool {
        &&& self.num_data == 4 || self.num_data == 8
        &&& 1 <= self.num_cols <= 191
        &&& self.row_offsets@ == seq![
            0u8,
            0x40u8,
            self.num_cols,
            (0x40 + self.num_cols) as u8,
        ]
    }

    /// The transitions of one byte sent with the register-select line at
    /// `mode`: in 8-line mode a single transfer, in 4-line mode the high
    /// nibble then the low nibble.
    pub open spec fn send_seq(self, val: u8, mode: u8) -> Seq<Action> {
        seq![Action::SetLine(LineId::Rs, mode)]
            + (if self.has_rw {
                seq![Action::SetLine(LineId::Rw, 0u8)]
            } else {
                Seq::<Action>::empty()
            })
            + (if self.eight_bit() {
                write8_seq(val, self.num_data as int)
            } else {
                write4_seq(val >> 4) + write4_seq(val)
            })
    }

    pub open spec fn command_seq(self, val: u8) -> Seq<Action> {
        self.send_seq(val, 0)
    }

    pub open spec fn write_seq(self, val: u8) -> Seq<Action> {
        self.send_seq(val, 1)
    }

    fn push_pulse(out: &mut Vec<Action>)
        ensures
            final(out)@ == old(out)@ + pulse_seq(),
    {
        out.push(Action::SetLine(LineId::Enable, 0));
        out.push(Action::DelayMicros(10));
        out.push(Action::SetLine(LineId::Enable, 1));
        out.push(Action::DelayMicros(10));
        out.push(Action::SetLine(LineId::Enable, 0));
        out.push(Action::DelayMicros(100));
        proof {
            assert(out@ =~= old(out)@ + pulse_seq());
        }
    }

    fn push_write4(out: &mut Vec<Action>, val: u8)
        ensures
            final(out)@ == old(out)@ + write4_seq(val),
    {
        let mut i: u8 = 0;
        while i < 4
            invariant
                i <= 4,
                out@ == old(out)@ + Seq::new(
                    i as nat,
                    |k: int| Action::SetLine(LineId::Data(k as u8), data_bit(val, k as u8)),
                ),
            decreases 4 - i,
        {
            out.push(Action::SetLine(LineId::Data(i), (val >> i) & 0x01));
            i = i + 1;
            proof {
                assert(out@ =~= old(out)@ + Seq::new(
                    i as nat,
                    |k: int| Action::SetLine(LineId::Data(k as u8), data_bit(val, k as u8)),
                ));
            }
        }
        Self::push_pulse(out);
        proof {
            assert(out@ =~= old(out)@ + write4_seq(val));
        }
    }

    fn push_write8(out: &mut Vec<Action>, val: u8, nd: u8)
        requires
            nd == 4 || nd == 8,
        ensures
            final(out)@ == old(out)@ + write8_seq(val, nd as int),
    {
        let mut i: u8 = 0;
        while i < nd
            invariant
                nd == 4 || nd == 8,
                i <= nd,
                out@ == old(out)@ + Seq::new(
                    i as nat,
                    |k: int| Action::SetLine(LineId::Data(k as u8), data_bit(val, k as u8)),
                ),
            decreases nd - i,
        {
            out.push(Action::SetLine(LineId::Data(i), (val >> i) & 0x01));
            i = i + 1;
            proof {
                assert(out@ =~= old(out)@ + Seq::new(
                    i as nat,
                    |k: int| Action::SetLine(LineId::Data(k as u8), data_bit(val, k as u8)),
                ));
            }
        }
        Self::push_pulse(out);
        proof {
            assert(out@ =~= old(out)@ + write8_seq(val, nd as int));
        }
    }

    fn push_send(&self, out: &mut Vec<Action>, val: u8, mode: u8)
        requires
            self.wf(),
        ensures
            final(out)@ == old(out)@ + self.send_seq(val, mode),
    {
        out.push(Action::SetLine(LineId::Rs, mode));
        if self.has_rw {
            out.push(Action::SetLine(LineId::Rw, 0));
        }
        if (self.disp_func & LCD_8BITMODE) != 0 {
            Self::push_write8(out, val, self.num_data);
        } else {
            Self::push_write4(out, val >> 4);
            Self::push_write4(out, val);
        }
        proof {
            assert(out@ =~= old(out)@ + self.send_seq(val, mode));
        }
    }

    /// The transitions of one instruction byte (register-select low).
    pub fn command(&self, val: u8) -> (r: Vec<Action>)
        requires
            self.wf(),
        ensures
            r@ == self.command_seq(val),
    {
        let mut out: Vec<Action> = Vec::new();
        self.push_send(&mut out, val, 0);
        out
    }

    /// The transitions of one data byte (register-select high).
    pub fn write(&self, val: u8) -> (r: Vec<Action>)
        requires
            self.wf(),
        ensures
            r@ == self.write_seq(val),
    {
        let mut out: Vec<Action> = Vec::new();
        self.push_send(&mut out, val, 1);
        out
    }

    pub open spec fn clear_seq(self) -> Seq<Action> {
        self.command_seq(LCD_CLEAR_DISPLAY) + seq![Action::DelayMicros(2000u64)]
    }

    /// Clear the display; the trailing delay covers the panel's worst-case
    /// execution time for this command.
    pub fn clear(&self) -> (r: Vec<Action>)
        requires
            self.wf(),
        ensures
            r@ == self.clear_seq(),
    {
        let mut out = self.command(LCD_CLEAR_DISPLAY);
        out.push(Action::DelayMicros(2000));
        out
    }

    pub open spec fn home_seq(self) -> Seq<Action> {
        self.command_seq(LCD_RETURN_HOME) + seq![Action::DelayMicros(2000u64)]
    }

    /// Return the cursor to the origin; the panel needs the trailing delay.
    pub fn home(&self) -> (r: Vec<Action>)
        requires
            self.wf(),
        ensures
            r@ == self.home_seq(),
    {
        let mut out = self.command(LCD_RETURN_HOME);
        out.push(Action::DelayMicros(2000));
        out
    }

    pub fn get_rows(&self) -> (r: u8)
        ensures
            r == self.num_rows,
    {
        self.num_rows
    }

    pub fn get_cols(&self) -> (r: u8)
        ensures
            r == self.num_cols,
    {
        self.num_cols
    }

    /// The row actually addressed: a row past the end of the offset table
    /// clamps to its last entry, never failing.
    pub open spec fn clamped_row(self, row: u8) -> int {
        if row >= 4 {
            3
        } else {
            row as int
        }
    }

    /// The DDRAM address selected by `set_cursor`.
    pub open spec fn cursor_addr(self, row: u8, col: u8) -> int {
        col as int + self.row_offsets@[self.clamped_row(row)] as int
    }

    pub open spec fn set_cursor_seq(self, row: u8, col: u8) -> Seq<Action> {
        self.command_seq(LCD_SET_DDRAM_ADDR | (self.cursor_addr(row, col) as u8))
    }

    /// Move the addressable cursor to `(row, col)`; rows past the offset
    /// table silently clamp rather than erroring.
    pub fn set_cursor(&self, row: u8, col: u8) -> (r: Vec<Action>)
        requires
            self.wf(),
            self.cursor_addr(row, col) <= 255,
        ensures
            r@ == self.set_cursor_seq(row, col),
    {
        let max_lines: u8 = 4;
        let mut row2 = row;
        if row2 >= max_lines {
            row2 = max_lines - 1;
        }
        let addr = col + self.row_offsets[row2 as usize];
        self.command(LCD_SET_DDRAM_ADDR | addr)
    }

    /// Every row index at or past the offset table's length is clamped to
    /// its last entry: such a row addresses `row_offsets[3]`, exactly as
    /// row 3 does, and `set_cursor` never fails on it.
    pub proof fn lemma_set_cursor_clamps(self, row: u8, col: u8)
        requires
            self.wf(),
            row >= 4,
        ensures
            self.clamped_row(row) == 3,
            self.cursor_addr(row, col) == col + self.row_offsets@[3],
            self.set_cursor_seq(row, col) == self.set_cursor_seq(3, col),
    {
    }

    pub open spec fn with_control(self, c: u8) -> LcdDriver {
        LcdDriver { disp_control: c, ..self }
    }

    /// Turn the display on, keeping only the display-on bit of the control
    /// byte.
    pub fn display(&mut self) -> (r: Vec<Action>)
        requires
            old(self).wf(),
        ensures
            *final(self) == (old(self).with_control(old(self).disp_control & LCD_DISPLAY_ON)),
            r@ == final(self).command_seq(LCD_DISPLAY_CONTROL | final(self).disp_control),
    {
        self.disp_control = self.disp_control & LCD_DISPLAY_ON;
        self.command(LCD_DISPLAY_CONTROL | self.disp_control)
    }

    /// Turn the display off by masking the display-on bit out of the control
    /// byte.
    pub fn no_display(&mut self) -> (r: Vec<Action>)
        requires
            old(self).wf(),
        ensures
            *final(self) == (old(self).with_control(old(self).disp_control & !LCD_DISPLAY_ON)),
            r@ == final(self).command_seq(LCD_DISPLAY_CONTROL | final(self).disp_control),
    {
        self.disp_control = self.disp_control & !LCD_DISPLAY_ON;
        self.command(LCD_DISPLAY_CONTROL | self.disp_control)
    }

    /// The transitions of the given data bytes written back to back.
    pub open spec fn writes_seq(self, bytes: Seq<u8>) -> Seq<Action>
        decreases bytes.len(),
    {
        if bytes.len() == 0 {
            Seq::empty()
        } else {
            self.writes_seq(bytes.drop_last()) + self.write_seq(bytes.last())
        }
    }

    pub open spec fn create_char_seq(self, loc: u8, charmap: Seq<u8>) -> Seq<Action> {
        self.command_seq(LCD_SET_CGRAM_ADDR | ((loc & 0x07) << 3)) + self.writes_seq(charmap)
    }

    /// Define a custom glyph: the slot is masked to the panel's 8 CGRAM
    /// locations, then all 8 bitmap rows are written.
    pub fn create_char(&self, loc: u8, charmap: [u8; 8]) -> (r: Vec<Action>)
        requires
            self.wf(),
        ensures
            r@ == self.create_char_seq(loc, charmap@),
    {
        let slot = loc & 0x07;
        let mut out = self.command(LCD_SET_CGRAM_ADDR | (slot << 3));
        let mut i: usize = 0;
        while i < 8
            invariant
                self.wf(),
                i <= 8,
                out@ == self.command_seq(LCD_SET_CGRAM_ADDR | ((loc & 0x07) << 3))
                    + self.writes_seq(charmap@.take(i as int)),
            decreases 8 - i,
        {
            self.push_send(&mut out, charmap[i], 1);
            i = i + 1;
            proof {
                assert(charmap@.take(i as int).drop_last() =~= charmap@.take(i as int - 1));
                assert(out@ =~= self.command_seq(LCD_SET_CGRAM_ADDR | ((loc & 0x07) << 3))
                    + self.writes_seq(charmap@.take(i as int)));
            }
        }
        proof {
            assert(charmap@.take(8) =~= charmap@);
        }
        out
    }
}

/// The ASCII transliteration of a string, one output byte per written
/// character, as the panel's narrow character set receives it.
pub uninterp spec fn transliterated(s: Seq<char>) -> Seq<u8>;

/// Relies on unidecode::unidecode: the transliteration of a string depends
/// on its characters alone; the result is pure ASCII, and every ASCII
/// character maps to itself.
#[verifier::external_body]
fn transliterate(s: &str) -> (r: Vec<u8>)
    ensures
        r@ == transliterated(s@),
        forall|i: int| 0 <= i < r@.len() ==> r@[i] < 128,
        (forall|i: int| 0 <= i < s@.len() ==> (s@[i] as u32) < 128) ==> r@ == Seq::new(
            s@.len(),
            |i: int| s@[i] as u8,
        ),
{
    unidecode::unidecode(s).into_bytes()
}

impl LcdDriver {
    /// The transitions that print a string: its ASCII transliteration,
    /// byte by byte, at the current cursor.
    pub open spec fn print_seq(self, s: Seq<char>) -> Seq<Action> {
        self.writes_seq(transliterated(s))
    }

    /// Print a string at the current cursor; no wrapping, no clearing.
    /// Only ASCII bytes ever reach the panel.
    pub fn print(&self, disp_str: &str) -> (r: Vec<Action>)
        requires
            self.wf(),
        ensures
            r@ == self.print_seq(disp_str@),
            forall|i: int|
                0 <= i < transliterated(disp_str@).len() ==> #[trigger] transliterated(
                    disp_str@,
                )[i] < 128,
    {
        let bytes = transliterate(disp_str);
        let mut out: Vec<Action> = Vec::new();
        let mut i: usize = 0;
        while i < bytes.len()
            invariant
                self.wf(),
                i <= bytes@.len(),
                out@ == self.writes_seq(bytes@.take(i as int)),
            decreases bytes@.len() - i,
        {
            self.push_send(&mut out, bytes[i], 1);
            i = i + 1;
            proof {
                assert(bytes@.take(i as int).drop_last() =~= bytes@.take(i as int - 1));
            }
        }
        proof {
            assert(bytes@.take(bytes@.len() as int) =~= bytes@);
        }
        out
    }

    /// The transitions of a wrapped print: after the 16th byte the cursor
    /// jumps to the start of the second row.
    pub open spec fn wrapped_writes_seq(self, bytes: Seq<u8>) -> Seq<Action>
        decreases bytes.len(),
    {
        if bytes.len() == 0 {
            Seq::empty()
        } else {
            self.wrapped_writes_seq(bytes.drop_last()) + self.write_seq(bytes.last()) + (
            if bytes.len() == 16 {
                self.set_cursor_seq(1, 0)
            } else {
                Seq::empty()
            })
        }
    }

    pub open spec fn print_wrapped_seq(self, s: Seq<char>) -> Seq<Action> {
        self.set_cursor_seq(0, 0) + self.wrapped_writes_seq(transliterated(s))
    }

    /// Print from the top-left corner, continuing on the second row once the
    /// first 16 bytes are written.
    pub fn print_wrapped(&self, disp_str: &str) -> (r: Vec<Action>)
        requires
            self.wf(),
        ensures
            r@ == self.print_wrapped_seq(disp_str@),
    {
        let mut out = self.set_cursor(0, 0);
        let bytes = transliterate(disp_str);
        let mut char_count: usize = 0;
        while char_count < bytes.len()
            invariant
                self.wf(),
                char_count <= bytes@.len(),
                out@ == self.set_cursor_seq(0, 0) + self.wrapped_writes_seq(
                    bytes@.take(char_count as int),
                ),
            decreases bytes@.len() - char_count,
        {
            self.push_send(&mut out, bytes[char_count], 1);
            char_count = char_count + 1;
            if char_count == 16 {
                let mut jump = self.set_cursor(1, 0);
                out.append(&mut jump);
            }
            proof {
                assert(bytes@.take(char_count as int).drop_last() =~= bytes@.take(
                    char_count as int - 1,
                ));
                assert(out@ =~= self.set_cursor_seq(0, 0) + self.wrapped_writes_seq(
                    bytes@.take(char_count as int),
                ));
            }
        }
        proof {
            assert(bytes@.take(bytes@.len() as int) =~= bytes@);
        }
        out
    }
}

/// How many of the eight data-pin parameters are marked 255, i.e. unused.
pub open spec fn unused_count(
    d0: u8,
    d1: u8,
    d2: u8,
    d3: u8,
    d4: u8,
    d5: u8,
    d6: u8,
    d7: u8,
) -> int {
    (if d0 == 255 { 1int } else { 0int }) + (if d1 == 255 { 1int } else { 0int })
        + (if d2 == 255 { 1int } else { 0int }) + (if d3 == 255 { 1int } else { 0int })
        + (if d4 == 255 { 1int } else { 0int }) + (if d5 == 255 { 1int } else { 0int })
        + (if d6 == 255 { 1int } else { 0int }) + (if d7 == 255 { 1int } else { 0int })
}

/// The function-set flag byte: bus width from the mode flag, two display
/// lines whenever there is more than one column of text.
pub open spec fn spec_disp_func(four_bit_mode: bool, cols: u8) -> u8 {
    let base: u8 = if four_bit_mode {
        LCD_4BITMODE | LCD_1LINE | LCD_5X8DOTS
    } else {
        LCD_8BITMODE | LCD_1LINE | LCD_5X8DOTS
    };
    if cols > 1 {
        base | LCD_2LINE
    } else {
        base
    }
}

/// The built-in glyphs loaded into CGRAM at start-up, in load order.
pub open spec fn icons_preload_seq(d: LcdDriver) -> Seq<Action> {
    d.create_char_seq(Icon::MAIL.spec_index(), Icon::MAIL.spec_char_data())
        + d.create_char_seq(Icon::BELL.spec_index(), Icon::BELL.spec_char_data())
        + d.create_char_seq(Icon::FILLEDBOX.spec_index(), Icon::FILLEDBOX.spec_char_data())
        + d.create_char_seq(Icon::EMPTYBOX.spec_index(), Icon::EMPTYBOX.spec_char_data())
        + d.create_char_seq(Icon::MAIL.spec_index(), Icon::MAIL.spec_char_data())
        + d.create_char_seq(Icon::BELL.spec_index(), Icon::BELL.spec_char_data())
        + d.create_char_seq(Icon::MUSIC.spec_index(), Icon::MUSIC.spec_char_data())
        + d.create_char_seq(Icon::PLAY.spec_index(), Icon::PLAY.spec_char_data())
        + d.create_char_seq(Icon::PAUSE.spec_index(), Icon::PAUSE.spec_char_data())
}

/// The power-on sequence: registers driven low, the documented reset pulses
/// for the selected bus width, function-set commit, display on, clear,
/// entry mode, then the glyph preload.
pub open spec fn init_seq(d: LcdDriver) -> Seq<Action> {
    seq![Action::SetLine(LineId::Rs, 0u8), Action::SetLine(LineId::Enable, 0u8)] + (if d.has_rw {
        seq![Action::SetLine(LineId::Rw, 0u8)]
    } else {
        Seq::<Action>::empty()
    }) + (if !d.eight_bit() {
        write4_seq(0x03) + seq![Action::DelayMicros(4500u64)] + write4_seq(0x03)
            + seq![Action::DelayMicros(4500u64)] + write4_seq(0x03)
            + seq![Action::DelayMicros(150u64)] + write4_seq(0x02)
    } else {
        d.command_seq(LCD_FUNCTION_SET | d.disp_func) + seq![Action::DelayMicros(4500u64)]
            + d.command_seq(LCD_FUNCTION_SET | d.disp_func) + seq![Action::DelayMicros(150u64)]
            + d.command_seq(LCD_FUNCTION_SET | d.disp_func)
    }) + d.command_seq(LCD_FUNCTION_SET | d.disp_func) + d.command_seq(
        LCD_DISPLAY_CONTROL | LCD_DISPLAY_ON,
    ) + d.clear_seq() + d.command_seq(LCD_ENTRY_MODE_SET | d.disp_mode) + icons_preload_seq(d)
}

impl LcdDriver {
    /// Build the protocol state for a panel of `cols` x `rows` characters
    /// and emit its power-on initialization.  A data pin given as 255 is
    /// unused; exactly 0 or 4 of the 8 may be unused, anything else is
    /// ambiguous wiring and is rejected.  `rw` given as 255 means the panel
    fn push_set(out: &mut Vec<Action>, line: LineId, v: u8)
        ensures
            final(out)@ == old(out)@ + seq![Action::SetLine(line, v)],
    {
        out.push(Action::SetLine(line, v));
        proof {
            assert(out@ =~= old(out)@ + seq![Action::SetLine(line, v)]);
        }
    }

    fn push_delay(out: &mut Vec<Action>, us: u64)
        ensures
            final(out)@ == old(out)@ + seq![Action::DelayMicros(us)],
    {
        out.push(Action::DelayMicros(us));
        proof {
            assert(out@ =~= old(out)@ + seq![Action::DelayMicros(us)]);
        }
    }

    fn push_icon_preload(&self, out: &mut Vec<Action>)
        requires
            self.wf(),
        ensures
            final(out)@ == old(out)@ + icons_preload_seq(*self),
    {
        let ghost base: Seq<Action> = out@;
        let ghost mut done: Seq<Action> = Seq::empty();
        let mut cc = self.create_char(Icon::MAIL.index(), Icon::MAIL.char_data());
        out.append(&mut cc);
        proof {
            done = self.create_char_seq(Icon::MAIL.spec_index(), Icon::MAIL.spec_char_data());
        }
        let mut cc = self.create_char(Icon::BELL.index(), Icon::BELL.char_data());
        out.append(&mut cc);
        proof {
            let next = self.create_char_seq(Icon::BELL.spec_index(), Icon::BELL.spec_char_data());
            vstd::seq_lib::lemma_concat_associative(base, done, next);
            done = done + next;
        }
        let mut cc = self.create_char(Icon::FILLEDBOX.index(), Icon::FILLEDBOX.char_data());
        out.append(&mut cc);
        proof {
            let next = self.create_char_seq(
                Icon::FILLEDBOX.spec_index(),
                Icon::FILLEDBOX.spec_char_data(),
            );
            vstd::seq_lib::lemma_concat_associative(base, done, next);
            done = done + next;
        }
        let mut cc = self.create_char(Icon::EMPTYBOX.index(), Icon::EMPTYBOX.char_data());
        out.append(&mut cc);
        proof {
            let next = self.create_char_seq(
                Icon::EMPTYBOX.spec_index(),
                Icon::EMPTYBOX.spec_char_data(),
            );
            vstd::seq_lib::lemma_concat_associative(base, done, next);
            done = done + next;
        }
        let mut cc = self.create_char(Icon::MAIL.index(), Icon::MAIL.char_data());
        out.append(&mut cc);
        proof {
            let next = self.create_char_seq(Icon::MAIL.spec_index(), Icon::MAIL.spec_char_data());
            vstd::seq_lib::lemma_concat_associative(base, done, next);
            done = done + next;
        }
        let mut cc = self.create_char(Icon::BELL.index(), Icon::BELL.char_data());
        out.append(&mut cc);
        proof {
            let next = self.create_char_seq(Icon::BELL.spec_index(), Icon::BELL.spec_char_data());
            vstd::seq_lib::lemma_concat_associative(base, done, next);
            done = done + next;
        }
        let mut cc = self.create_char(Icon::MUSIC.index(), Icon::MUSIC.char_data());
        out.append(&mut cc);
        proof {
            let next = self.create_char_seq(Icon::MUSIC.spec_index(), Icon::MUSIC.spec_char_data());
            vstd::seq_lib::lemma_concat_associative(base, done, next);
            done = done + next;
        }
        let mut cc = self.create_char(Icon::PLAY.index(), Icon::PLAY.char_data());
        out.append(&mut cc);
        proof {
            let next = self.create_char_seq(Icon::PLAY.spec_index(), Icon::PLAY.spec_char_data());
            vstd::seq_lib::lemma_concat_associative(base, done, next);
            done = done + next;
        }
        let mut cc = self.create_char(Icon::PAUSE.index(), Icon::PAUSE.char_data());
        out.append(&mut cc);
        proof {
            let next = self.create_char_seq(Icon::PAUSE.spec_index(), Icon::PAUSE.spec_char_data());
            vstd::seq_lib::lemma_concat_associative(base, done, next);
            done = done + next;
            assert(done == icons_preload_seq(*self));
        }
    }

    /// Build the protocol state for a panel of `cols` x `rows` characters
    /// and emit its power-on initialization.  A data pin given as 255 is
    /// unused; exactly 0 or 4 of the 8 may be unused, anything else is
    /// ambiguous wiring and is rejected.  `rw` given as 255 means the panel
    /// is wired write-only.
    #[verifier::rlimit(50)]
    pub fn new(
        cols: u8,
        rows: u8,
        four_bit_mode: bool,
        rw: u8,
        d0: u8,
        d1: u8,
        d2: u8,
        d3: u8,
        d4: u8,
        d5: u8,
        d6: u8,
        d7: u8,
    ) -> (r: Result<(LcdDriver, Vec<Action>), ConfigError>)
        requires
            1 <= cols <= 191,
        ensures
            match r {
                Ok(p) => {
                    &&& unused_count(d0, d1, d2, d3, d4, d5, d6, d7) == 0 || unused_count(
                        d0,
                        d1,
                        d2,
                        d3,
                        d4,
                        d5,
                        d6,
                        d7,
                    ) == 4
                    &&& p.0.wf()
                    &&& p.0.num_cols == cols
                    &&& p.0.num_rows == rows
                    &&& p.0.has_rw == (rw != 255)
                    &&& p.0.num_data == 8 - unused_count(d0, d1, d2, d3, d4, d5, d6, d7)
                    &&& p.0.disp_func == spec_disp_func(four_bit_mode, cols)
                    &&& p.0.disp_mode == (LCD_ENTRY_LEFT | LCD_ENTRY_SHIFT_DECREMENT)
                    &&& p.0.disp_control == LCD_DISPLAY_ON
                    &&& p.1@ == init_seq(p.0)
                },
                Err(e) => {
                    &&& e == ConfigError::InvalidDataLineCount
                    &&& unused_count(d0, d1, d2, d3, d4, d5, d6, d7) != 0
                    &&& unused_count(d0, d1, d2, d3, d4, d5, d6, d7) != 4
                },
            },
    {
        let mut none_count: u8 = 0;
        if d0 == 255 {
            none_count = none_count + 1;
        }
        if d1 == 255 {
            none_count = none_count + 1;
        }
        if d2 == 255 {
            none_count = none_count + 1;
        }
        if d3 == 255 {
            none_count = none_count + 1;
        }
        if d4 == 255 {
            none_count = none_count + 1;
        }
        if d5 == 255 {
            none_count = none_count + 1;
        }
        if d6 == 255 {
            none_count = none_count + 1;
        }
        if d7 == 255 {
            none_count = none_count + 1;
        }
        if none_count != 0 && none_count != 4 {
            return Err(ConfigError::InvalidDataLineCount);
        }
        let mut disp_func: u8 = if four_bit_mode {
            LCD_4BITMODE | LCD_1LINE | LCD_5X8DOTS
        } else {
            LCD_8BITMODE | LCD_1LINE | LCD_5X8DOTS
        };
        if cols > 1 {
            disp_func = disp_func | LCD_2LINE;
        }
        let row_offsets: [u8; 4] = [0x00, 0x40, 0x00 + cols, 0x40 + cols];
        let disp_control: u8 = LCD_DISPLAY_ON | LCD_CURSOR_OFF | LCD_BLINK_OFF;
        let disp_mode: u8 = LCD_ENTRY_LEFT | LCD_ENTRY_SHIFT_DECREMENT;
        let mut lcd_struct = LcdDriver {
            disp_func,
            disp_mode,
            disp_control,
            num_cols: cols,
            num_rows: rows,
            row_offsets,
            has_rw: rw != 255,
            num_data: 8 - none_count,
        };
        proof {
            assert(lcd_struct.row_offsets@ =~= seq![
                0u8,
                0x40u8,
                lcd_struct.num_cols,
                (0x40 + lcd_struct.num_cols) as u8,
            ]);
            assert(((4u8 | 0u8 | 0u8) & 4u8) == 4u8) by (bit_vector);
            assert((LCD_DISPLAY_ON | LCD_CURSOR_OFF | LCD_BLINK_OFF) & LCD_DISPLAY_ON
                == LCD_DISPLAY_ON);
        }
        let mut acts: Vec<Action> = Vec::new();
        Self::push_set(&mut acts, LineId::Rs, 0);
        Self::push_set(&mut acts, LineId::Enable, 0);
        proof {
            assert(Seq::<Action>::empty() + seq![Action::SetLine(LineId::Rs, 0u8)] + seq![
                Action::SetLine(LineId::Enable, 0u8),
            ] =~= seq![Action::SetLine(LineId::Rs, 0u8), Action::SetLine(LineId::Enable, 0u8)]);
        }
        if lcd_struct.has_rw {
            Self::push_set(&mut acts, LineId::Rw, 0);
        }
        let ghost lead: Seq<Action> = seq![
            Action::SetLine(LineId::Rs, 0u8),
            Action::SetLine(LineId::Enable, 0u8),
        ] + (if lcd_struct.has_rw {
            seq![Action::SetLine(LineId::Rw, 0u8)]
        } else {
            Seq::<Action>::empty()
        });
        proof {
            if !lcd_struct.has_rw {
                assert(acts@ =~= lead);
            }
            assert(acts@ == lead);
        }
        let ghost mut reset: Seq<Action> = Seq::empty();
        if (disp_func & LCD_8BITMODE) == 0 {
            Self::push_write4(&mut acts, 0x03);
            proof {
                reset = write4_seq(0x03);
            }
            Self::push_delay(&mut acts, 4500);
            proof {
                vstd::seq_lib::lemma_concat_associative(
                    lead,
                    reset,
                    seq![Action::DelayMicros(4500u64)],
                );
                reset = reset + seq![Action::DelayMicros(4500u64)];
            }
            Self::push_write4(&mut acts, 0x03);
            proof {
                vstd::seq_lib::lemma_concat_associative(lead, reset, write4_seq(0x03));
                reset = reset + write4_seq(0x03);
            }
            Self::push_delay(&mut acts, 4500);
            proof {
                vstd::seq_lib::lemma_concat_associative(
                    lead,
                    reset,
                    seq![Action::DelayMicros(4500u64)],
                );
                reset = reset + seq![Action::DelayMicros(4500u64)];
            }
            Self::push_write4(&mut acts, 0x03);
            proof {
                vstd::seq_lib::lemma_concat_associative(lead, reset, write4_seq(0x03));
                reset = reset + write4_seq(0x03);
            }
            Self::push_delay(&mut acts, 150);
            proof {
                vstd::seq_lib::lemma_concat_associative(
                    lead,
                    reset,
                    seq![Action::DelayMicros(150u64)],
                );
                reset = reset + seq![Action::DelayMicros(150u64)];
            }
            Self::push_write4(&mut acts, 0x02);
            proof {
                vstd::seq_lib::lemma_concat_associative(lead, reset, write4_seq(0x02));
                reset = reset + write4_seq(0x02);
            }
        } else {
            lcd_struct.push_send(&mut acts, LCD_FUNCTION_SET | disp_func, 0);
            proof {
                reset = lcd_struct.command_seq(LCD_FUNCTION_SET | lcd_struct.disp_func);
            }
            Self::push_delay(&mut acts, 4500);
            proof {
                vstd::seq_lib::lemma_concat_associative(
                    lead,
                    reset,
                    seq![Action::DelayMicros(4500u64)],
                );
                reset = reset + seq![Action::DelayMicros(4500u64)];
            }
            lcd_struct.push_send(&mut acts, LCD_FUNCTION_SET | disp_func, 0);
            proof {
                vstd::seq_lib::lemma_concat_associative(
                    lead,
                    reset,
                    lcd_struct.command_seq(LCD_FUNCTION_SET | lcd_struct.disp_func),
                );
                reset = reset + lcd_struct.command_seq(LCD_FUNCTION_SET | lcd_struct.disp_func);
            }
            Self::push_delay(&mut acts, 150);
            proof {
                vstd::seq_lib::lemma_concat_associative(
                    lead,
                    reset,
                    seq![Action::DelayMicros(150u64)],
                );
                reset = reset + seq![Action::DelayMicros(150u64)];
            }
            lcd_struct.push_send(&mut acts, LCD_FUNCTION_SET | disp_func, 0);
            proof {
                vstd::seq_lib::lemma_concat_associative(
                    lead,
                    reset,
                    lcd_struct.command_seq(LCD_FUNCTION_SET | lcd_struct.disp_func),
                );
                reset = reset + lcd_struct.command_seq(LCD_FUNCTION_SET | lcd_struct.disp_func);
            }
        }
        proof {
            assert(acts@ == lead + (if !lcd_struct.eight_bit() {
                write4_seq(0x03) + seq![Action::DelayMicros(4500u64)] + write4_seq(0x03)
                    + seq![Action::DelayMicros(4500u64)] + write4_seq(0x03)
                    + seq![Action::DelayMicros(150u64)] + write4_seq(0x02)
            } else {
                lcd_struct.command_seq(LCD_FUNCTION_SET | lcd_struct.disp_func)
                    + seq![Action::DelayMicros(4500u64)] + lcd_struct.command_seq(
                    LCD_FUNCTION_SET | lcd_struct.disp_func,
                ) + seq![Action::DelayMicros(150u64)] + lcd_struct.command_seq(
                    LCD_FUNCTION_SET | lcd_struct.disp_func,
                )
            }));
        }
        lcd_struct.push_send(&mut acts, LCD_FUNCTION_SET | disp_func, 0);
        let mut on_acts = lcd_struct.display();
        acts.append(&mut on_acts);
        let mut clear_acts = lcd_struct.clear();
        acts.append(&mut clear_acts);
        lcd_struct.push_send(&mut acts, LCD_ENTRY_MODE_SET | disp_mode, 0);
        lcd_struct.push_icon_preload(&mut acts);
        proof {
            assert(acts@ == init_seq(lcd_struct));
        }
        Ok((lcd_struct, acts))
    }
}

} // verus!

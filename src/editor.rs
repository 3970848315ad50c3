//! The editor: what each command does to the cursor, the decoding mode, the
//! image and the screen. Reading the terminal and the disk is left to the
//! caller, which runs the loop and hands each typed line back in.
use vstd::prelude::*;
use crate::dictionary::{glyph_text, lookup, CharDictionary};
use crate::rom::{RomSize, ROM};
use crate::screen::{bumped, bumped_by, clear_text, lemma_printed_fits, Screen, NEWLINE, ROM_LINE_COUNT};
use crate::text::{
    hex_digit_upper, hex_digit_upper_exec, hex_digit_value, hex_error_message, scan_hex, HexError, hex_len, hex_lower, lower_of,
    lemma_parse_hex_in_range, lowercase_text, parse_hex, parse_hex_i32, push_char, push_hex_lower, push_hex_padded,
    push_repeated, repeated, same_text, trim_of, trim_text, zero_padded,
};

verus! {

/// Bytes shown per row.
pub const PRINT_INTERVAL: RomSize = 64;
/// Bytes in one page of rows.
pub const PAGE: RomSize = 512;
/// Starts bold text.
pub const BOLD: &'static str = "\x1B[1m";
/// Ends bold text.
pub const RESET: &'static str = "\x1B[0m";
pub const TITLE: &'static str = "POKEMON YELLOW ROM EDITOR";
pub const WHERE_TO: &'static str = "where to?";
pub const HEX_PROMPT: &'static str = "0x";
pub const PATH_PROMPT: &'static str = "src: ";
pub const BYTES_PROMPT: &'static str = "what byte(s)?";
pub const BAD_HEX: &'static str = "bad hex";
pub const OUT_OF_RANGE: &'static str = "address out of range";
pub const SIZE_LABEL: &'static str = "rom size: 0x";
pub const SAVED: &'static str = "successfully wrote to ";
pub const NOT_SAVED: &'static str = "error could not write: ";
pub const COMMAND_PROMPT: &'static str = ">>> ";

/// A command typed at the prompt, after trimming and lower-casing.
#[derive(Clone, Copy, Debug, PartialEq, Eq, Structural)]
pub enum Command {
    /// Empty or unrecognised: draw the view again.
    Redraw,
    Down,
    Up,
    Raw,
    Eng,
    Goto,
    Size,
    Save,
    Write,
    Quit,
}

/// The command that a normalised line names.
pub open spec fn command_of(s: Seq<char>) -> Command {
    if s == "d"@ {
        Command::Down
    } else if s == "u"@ {
        Command::Up
    } else if s == "raw"@ {
        Command::Raw
    } else if s == "eng"@ {
        Command::Eng
    } else if s == "goto"@ {
        Command::Goto
    } else if s == "size"@ {
        Command::Size
    } else if s == "save"@ {
        Command::Save
    } else if s == "write"@ {
        Command::Write
    } else if s == "quit"@ {
        Command::Quit
    } else {
        Command::Redraw
    }
}

/// Recognises a normalised command.
pub fn parse_command(s: &str) -> (r: Command)
    ensures
        r == command_of(s@),
{
    if same_text(s, "d") {
        Command::Down
    } else if same_text(s, "u") {
        Command::Up
    } else if same_text(s, "raw") {
        Command::Raw
    } else if same_text(s, "eng") {
        Command::Eng
    } else if same_text(s, "goto") {
        Command::Goto
    } else if same_text(s, "size") {
        Command::Size
    } else if same_text(s, "save") {
        Command::Save
    } else if same_text(s, "write") {
        Command::Write
    } else if same_text(s, "quit") {
        Command::Quit
    } else {
        Command::Redraw
    }
}

/// A typed command line, trimmed and then lower-cased.
pub fn normalize_command(line: &str) -> (r: String)
    ensures
        r@ == lower_of(trim_of(line@)),
{
    let t = trim_text(line);
    lowercase_text(t.as_str())
}

/// A typed value, lower-cased and then trimmed.
pub fn normalize_input(line: &str) -> (r: String)
    ensures
        r@ == trim_of(lower_of(line@)),
{
    let l = lowercase_text(line);
    trim_text(l.as_str())
}

/// What the caller does next.
#[derive(Clone, Copy, Debug, PartialEq, Eq, Structural)]
pub enum Step {
    /// Show the prompt and read a command.
    Prompt,
    /// Run the loop again with an empty command, without prompting.
    Skip,
    /// Leave the loop.
    Quit,
    /// Read the address for `goto`.
    AskGotoAddress,
    /// Read the destination path for `save`.
    AskSavePath,
    /// Read the address for `write`.
    AskWriteAddress,
    /// Read the bytes for `write`, to go from this address on.
    AskWriteBytes(RomSize),
}

// ---------------------------------------------------------------- rendering

/// Column labels: each of `0..n` as two lower-case digits and a space.
pub open spec fn labels_text(n: nat) -> Seq<char>
    decreases n,
{
    if n == 0 {
        Seq::empty()
    } else {
        labels_text((n - 1) as nat) + zero_padded(hex_lower((n - 1) as nat), 2) + seq![' ']
    }
}

/// The header row: spaces the width of an address, one more, the labels.
pub open spec fn header_text(width: nat) -> Seq<char> {
    repeated(" "@, width) + seq![' '] + labels_text(PRINT_INTERVAL as nat)
}

/// A byte as two upper-case digits and a space.
pub open spec fn hex_cell(b: u8) -> Seq<char> {
    seq![hex_digit_upper((b / 16) as nat), hex_digit_upper((b % 16) as nat), ' ']
}

/// The cell for a byte, or for a place past the end of the image (`None`):
/// the glyph when decoding and the table has one, else the hex form.
pub open spec fn cell_of(glyphs: Seq<(u8, u8)>, raw: bool, b: Option<u8>) -> Seq<char> {
    match b {
        None => seq![' ', ' ', ' '],
        Some(v) => if !raw && lookup(glyphs[v as int]) is Some {
            glyph_text(glyphs[v as int]) + seq![' ']
        } else {
            hex_cell(v)
        },
    }
}

/// The byte at `addr`, if the image has one there.
pub open spec fn byte_at(bytes: Seq<u8>, addr: int) -> Option<u8> {
    if 0 <= addr < bytes.len() {
        Some(bytes[addr])
    } else {
        None
    }
}

/// The first `n` cells from `base`.
pub open spec fn cells_text(bytes: Seq<u8>, glyphs: Seq<(u8, u8)>, raw: bool, base: int, n: nat) -> Seq<char>
    decreases n,
{
    if n == 0 {
        Seq::empty()
    } else {
        cells_text(bytes, glyphs, raw, base, (n - 1) as nat) + cell_of(glyphs, raw, byte_at(bytes, base + n - 1))
    }
}

/// One row: its address, zero-padded to `width`, a space, its cells.
pub open spec fn row_text(bytes: Seq<u8>, glyphs: Seq<(u8, u8)>, raw: bool, width: nat, base: int) -> Seq<char> {
    zero_padded(hex_lower(base as nat), width) + seq![' '] + cells_text(bytes, glyphs, raw, base, PRINT_INTERVAL as nat)
}

/// The first `n` rows from `base`, each ending its line.
pub open spec fn rows_text(bytes: Seq<u8>, glyphs: Seq<(u8, u8)>, raw: bool, width: nat, base: int, n: nat) -> Seq<char>
    decreases n,
{
    if n == 0 {
        Seq::empty()
    } else {
        rows_text(bytes, glyphs, raw, width, base, (n - 1) as nat)
            + row_text(bytes, glyphs, raw, width, base + PRINT_INTERVAL * (n - 1))
            + NEWLINE@
    }
}

/// A view of `rows` rows from `cursor`: the bold header, then the rows.
pub open spec fn view_text(bytes: Seq<u8>, glyphs: Seq<(u8, u8)>, raw: bool, width: nat, cursor: int, rows: nat) -> Seq<char> {
    BOLD@ + header_text(width) + NEWLINE@ + RESET@ + rows_text(bytes, glyphs, raw, width, cursor, rows)
}

fn push_cell(out: &mut String, dict: &CharDictionary, raw: bool, b: Option<u8>)
    requires
        dict.wf(),
    ensures
        final(out)@ == old(out)@ + cell_of(dict@, raw, b),
{
    match b {
        None => {
            push_char(out, ' ');
            push_char(out, ' ');
            push_char(out, ' ');
            assert(out@ =~= old(out)@ + cell_of(dict@, raw, b));
        },
        Some(v) => {
            let glyph = if raw {
                None
            } else {
                dict.get(v)
            };
            match glyph {
                Some(g) => {
                    out.append(g.as_str());
                    push_char(out, ' ');
                },
                None => {
                    push_char(out, hex_digit_upper_exec(v / 16));
                    push_char(out, hex_digit_upper_exec(v % 16));
                    push_char(out, ' ');
                },
            }
            assert(out@ =~= old(out)@ + cell_of(dict@, raw, b));
        },
    }
}

/// `n`, but no more than `len`.
pub open spec fn clamped(n: int, len: int) -> int {
    if n <= len {
        n
    } else {
        len
    }
}

// ------------------------------------------------------------------ editing

/// Outcome of patching bytes from `addr` with the hex text `t`, two
/// characters at a time: the bytes after, and the message that stopped the
/// patch, if one did. Bytes already written stay written.
pub open spec fn patch(bytes: Seq<u8>, addr: int, t: Seq<char>) -> (Seq<u8>, Option<Seq<char>>)
    decreases t.len(),
{
    if t.len() == 0 {
        (bytes, None)
    } else {
        let k: int = if t.len() >= 2 { 2 } else { 1 };
        match parse_hex(t.take(k)) {
            Err(e) => (bytes, Some(hex_error_message(e))),
            Ok(v) => if 0 <= addr < bytes.len() {
                patch(bytes.update(addr, wrap_byte(v)), addr + 1, t.skip(k))
            } else {
                (bytes, Some(OUT_OF_RANGE@))
            },
        }
    }
}

/// The byte whose value is `v` modulo 256.
pub open spec fn wrap_byte(v: int) -> u8 {
    (v % 256) as u8
}

proof fn lemma_scan_small(d: Seq<char>, neg: bool)
    requires
        d.len() <= 2,
    ensures
        scan_hex(d, neg, 0) matches Ok(v) ==> -255 <= v <= 255,
{
    if d.len() > 0 {
        if let Some(x0) = hex_digit_value(d[0]) {
            let a1 = if neg { -x0 } else { x0 };
            let d1 = d.skip(1);
            if d1.len() == 0 {
                assert(scan_hex(d1, neg, a1) == Ok::<int, HexError>(a1));
            } else {
                if let Some(x1) = hex_digit_value(d1[0]) {
                    let a2 = if neg { a1 * 16 - x1 } else { a1 * 16 + x1 };
                    assert(d1.skip(1).len() == 0);
                    assert(scan_hex(d1.skip(1), neg, a2) == Ok::<int, HexError>(a2));
                }
            }
        }
    }
}

proof fn lemma_chunk_range(c: Seq<char>)
    requires
        c.len() <= 2,
    ensures
        parse_hex(c) matches Ok(v) ==> -255 <= v <= 255,
{
    if c.len() > 0 {
        lemma_scan_small(c, false);
        lemma_scan_small(c.skip(1), false);
        lemma_scan_small(c.skip(1), true);
    }
}

proof fn lemma_align_down_negative(v: int)
    requires
        v < 0,
    ensures
        align_down(v) < 0,
{
    assert((v / 64) * 64 <= v) by (nonlinear_arith)
        requires
            v < 0,
    {
    };
}

proof fn lemma_align_down_nonnegative(v: int)
    requires
        0 <= v <= i32::MAX,
    ensures
        align_down(v) == (v / 64) * 64,
        0 <= align_down(v) <= v,
        align_down(v) % 64 == 0,
{
    assert(0 <= (v / 64) * 64 <= v) by (nonlinear_arith)
        requires
            0 <= v,
    {
    };
    assert(((v / 64) * 64) % 64 == 0) by (nonlinear_arith);
}

/// The line shown after a patch: the message that stopped it, if any.
pub open spec fn patch_report(stop: Option<Seq<char>>) -> Seq<char> {
    match stop {
        None => Seq::empty(),
        Some(m) => m + NEWLINE@,
    }
}

/// Where `d` and `u` move the cursor: a page on, unless that passes the
/// end; a page back, unless that passes the start.
pub open spec fn paged(c: Command, cursor: int, size: int) -> int {
    match c {
        Command::Down => if cursor + PAGE < size { cursor + PAGE } else { cursor },
        Command::Up => if cursor >= PAGE { cursor - PAGE } else { cursor },
        _ => cursor,
    }
}

/// Rounds down to a multiple of the row width.
pub open spec fn align_down(v: int) -> int {
    (v / PRINT_INTERVAL as int) * PRINT_INTERVAL as int
}

/// Whether `c` may be the view's first address in an image of `size` bytes.
pub open spec fn valid_cursor(c: int, size: int) -> bool {
    &&& c % PRINT_INTERVAL as int == 0
    &&& 0 <= c
    &&& (c < size || c == 0)
}

/// The cursor that `goto` asks for with the normalised text `t`, when it is
/// valid for the image.
pub open spec fn goto_target(t: Seq<char>, size: int) -> Option<int> {
    match parse_hex(t) {
        Ok(v) => if valid_cursor(align_down(v), size) {
            Some(align_down(v))
        } else {
            None
        },
        Err(_) => None,
    }
}

/// The line `goto` shows for `t`: none when it moves the cursor.
pub open spec fn goto_message(t: Seq<char>, size: int) -> Seq<char> {
    match parse_hex(t) {
        Ok(v) => if valid_cursor(align_down(v), size) {
            Seq::empty()
        } else {
            OUT_OF_RANGE@ + NEWLINE@
        },
        Err(_) => BAD_HEX@ + NEWLINE@,
    }
}

/// What `write` does once the address `t` has been typed: ask for the bytes,
/// or show why `t` is no address.
pub open spec fn write_address_outcome(t: Seq<char>) -> (Step, Seq<char>) {
    match parse_hex(t) {
        Ok(a) => (Step::AskWriteBytes(a as i32), BYTES_PROMPT@ + NEWLINE@ + HEX_PROMPT@),
        Err(e) => (Step::Prompt, hex_error_message(e) + NEWLINE@),
    }
}

/// The reply to a save: its path, or the error that stopped it.
pub open spec fn save_message(path: Seq<char>, error: Option<Seq<char>>) -> Seq<char> {
    match error {
        None => SAVED@ + path + NEWLINE@,
        Some(e) => NOT_SAVED@ + e + NEWLINE@,
    }
}

/// The decoding mode after a command.
pub open spec fn next_raw(c: Command, raw: bool) -> bool {
    match c {
        Command::Raw => true,
        Command::Eng => false,
        _ => raw,
    }
}

/// What the caller does after a command.
pub open spec fn step_of(c: Command) -> Step {
    match c {
        Command::Raw | Command::Eng => Step::Skip,
        Command::Goto => Step::AskGotoAddress,
        Command::Save => Step::AskSavePath,
        Command::Write => Step::AskWriteAddress,
        Command::Quit => Step::Quit,
        _ => Step::Prompt,
    }
}

/// What a command shows below the title, with the cursor and mode it leaves.
pub open spec fn body_text(
    c: Command,
    bytes: Seq<u8>,
    glyphs: Seq<(u8, u8)>,
    raw: bool,
    width: nat,
    cursor: int,
) -> Seq<char> {
    match c {
        Command::Redraw | Command::Down | Command::Up => view_text(bytes, glyphs, raw, width, cursor, ROM_LINE_COUNT as nat),
        Command::Goto => WHERE_TO@ + NEWLINE@ + HEX_PROMPT@,
        Command::Size => SIZE_LABEL@ + hex_lower(bytes.len()) + NEWLINE@,
        Command::Save => WHERE_TO@ + NEWLINE@ + PATH_PROMPT@,
        Command::Write => view_text(bytes, glyphs, raw, width, cursor, (ROM_LINE_COUNT - 4) as nat) + WHERE_TO@ + NEWLINE@ + HEX_PROMPT@,
        _ => Seq::empty(),
    }
}

/// Lines that `body_text` ends.
pub open spec fn body_lines(c: Command) -> nat {
    match c {
        Command::Redraw | Command::Down | Command::Up => (1 + ROM_LINE_COUNT) as nat,
        Command::Goto | Command::Size | Command::Save => 1,
        Command::Write => (1 + (ROM_LINE_COUNT - 4) + 1) as nat,
        _ => 0,
    }
}

/// The editor's state: the view's first address, the decoding mode, the
/// image, and the screen the view is drawn on.
pub struct ROMEditor {
    screen: Screen,
    line: RomSize,
    rom: ROM,
    rom_size_length: usize,
    raw: bool,
}

impl ROMEditor {
    /// First address of the view.
    pub closed spec fn cursor(&self) -> int {
        self.line as int
    }

    /// Whether bytes are shown as hex whatever the glyph table holds.
    pub closed spec fn raw_mode(&self) -> bool {
        self.raw
    }

    /// The image's bytes.
    pub closed spec fn image(&self) -> Seq<u8> {
        self.rom.bytes()
    }

    /// The glyph table's entries.
    pub closed spec fn glyphs(&self) -> Seq<(u8, u8)> {
        self.rom.glyphs()
    }

    /// Lines on the canvas since the last clear.
    pub closed spec fn printed(&self) -> nat {
        self.screen.printed()
    }

    /// Text not yet handed to the terminal.
    pub closed spec fn pending(&self) -> Seq<char> {
        self.screen.pending()
    }

    /// Digits that the image's size takes in hex: the width of an address.
    pub closed spec fn width(&self) -> nat {
        self.rom_size_length as nat
    }

    /// The cursor is a multiple of the row width and, unless the image is
    /// empty, an address of it.
    pub open spec fn wf(&self) -> bool {
        &&& self.image().len() <= i32::MAX
        &&& self.glyphs().len() == 256
        &&& self.cursor() % PRINT_INTERVAL as int == 0
        &&& 0 <= self.cursor()
        &&& (self.cursor() < self.image().len() || self.cursor() == 0)
        &&& self.width() == hex_lower(self.image().len()).len()
    }

    /// The view as drawn now, `rows` rows of it.
    pub open spec fn view_now(&self, rows: nat) -> Seq<char> {
        view_text(self.image(), self.glyphs(), self.raw_mode(), self.width(), self.cursor(), rows)
    }

    pub fn new(rom: ROM) -> (r: ROMEditor)
        requires
            rom.wf(),
        ensures
            r.wf(),
            r.cursor() == 0,
            !r.raw_mode(),
            r.image() == rom.bytes(),
            r.glyphs() == rom.glyphs(),
            r.printed() == 0,
            r.pending() == Seq::<char>::empty(),
    {
        let width = hex_len(rom.size() as u64);
        ROMEditor { screen: Screen::new(), line: 0, rom_size_length: width, rom, raw: false }
    }

    pub fn cursor_value(&self) -> (r: RomSize)
        ensures
            r == self.cursor(),
    {
        self.line
    }

    pub fn is_raw(&self) -> (r: bool)
        ensures
            r == self.raw_mode(),
    {
        self.raw
    }

    pub fn rom(&self) -> (r: &ROM)
        ensures
            r.bytes() == self.image(),
            r.glyphs() == self.glyphs(),
    {
        &self.rom
    }

    pub fn printed_count(&self) -> (r: usize)
        ensures
            r == self.printed(),
    {
        self.screen.printed_count()
    }

    /// Hands over the text gathered for the terminal.
    pub fn take_output(&mut self) -> (r: String)
        ensures
            r@ == old(self).pending(),
            final(self).pending() == Seq::<char>::empty(),
            final(self).printed() == old(self).printed(),
            final(self).cursor() == old(self).cursor(),
            final(self).raw_mode() == old(self).raw_mode(),
            final(self).image() == old(self).image(),
            final(self).glyphs() == old(self).glyphs(),
            final(self).width() == old(self).width(),
    {
        self.screen.take_output()
    }

    /// Opens the canvas.
    pub fn init(&mut self)
        ensures
            final(self).pending() == old(self).pending() + crate::screen::init_text(),
            final(self).printed() == old(self).printed(),
            final(self).cursor() == old(self).cursor(),
            final(self).raw_mode() == old(self).raw_mode(),
            final(self).image() == old(self).image(),
            final(self).glyphs() == old(self).glyphs(),
            final(self).width() == old(self).width(),
    {
        self.screen.init();
    }

    /// Draws the view, `lines_off` rows short of a full page.
    pub fn print_rom(&mut self, lines_off: usize)
        requires
            old(self).wf(),
            lines_off <= ROM_LINE_COUNT,
        ensures
            final(self).pending() == old(self).pending() + old(self).view_now((ROM_LINE_COUNT - lines_off) as nat),
            final(self).printed() == bumped_by(old(self).printed(), (1 + ROM_LINE_COUNT - lines_off) as nat),
            final(self).cursor() == old(self).cursor(),
            final(self).raw_mode() == old(self).raw_mode(),
            final(self).image() == old(self).image(),
            final(self).glyphs() == old(self).glyphs(),
            final(self).width() == old(self).width(),
    {
        let ghost start = self.screen.pending();
        let ghost p0 = self.screen.printed();
        proof {
            lemma_printed_fits(&self.screen);
        }
        self.screen.print(BOLD);
        let mut header = String::new();
        push_repeated(&mut header, " ", self.rom_size_length);
        push_char(&mut header, ' ');
        let ghost h0 = header@;
        let mut x: u64 = 0;
        while x < PRINT_INTERVAL as u64
            invariant
                x <= PRINT_INTERVAL,
                header@ == h0 + labels_text(x as nat),
            decreases PRINT_INTERVAL - x,
        {
            push_hex_padded(&mut header, x, 2);
            push_char(&mut header, ' ');
            assert(header@ =~= h0 + labels_text((x + 1) as nat));
            x = x + 1;
        }
        assert(header@ =~= header_text(self.width()));
        self.screen.println(header.as_str());
        self.screen.print(RESET);
        let ghost s1 = self.screen.pending();
        assert(s1 =~= start + BOLD@ + header_text(self.width()) + NEWLINE@ + RESET@);

        let rows: usize = ROM_LINE_COUNT - lines_off;
        let ghost bytes = self.rom.bytes();
        let ghost glyphs = self.rom.glyphs();
        let ghost raw = self.raw;
        let ghost width = self.width();
        let mut reader = self.rom.iterator_from(self.line);
        let mut display_line: u64 = self.line as u64;
        let mut r: usize = 0;
        while r < rows
            invariant
                r <= rows <= ROM_LINE_COUNT,
                self.wf(),
                self.rom.bytes() == bytes,
                self.rom.wf(),
                self.rom.glyphs() == glyphs,
                self.raw == raw,
                self.width() == width,
                reader.source() == bytes,
                reader.position() == clamped(self.line + PRINT_INTERVAL * r, bytes.len() as int),
                self.line == old(self).line,
                display_line == self.line + PRINT_INTERVAL * r,
                self.screen.printed() == bumped_by(p0, (1 + r) as nat),
                p0 <= usize::MAX,
                self.screen.pending() == s1 + rows_text(bytes, glyphs, raw, width, self.line as int, r as nat),
            decreases rows - r,
        {
            let mut row = String::new();
            push_hex_padded(&mut row, display_line, self.rom_size_length);
            push_char(&mut row, ' ');
            let ghost r0 = row@;
            let mut c: usize = 0;
            while c < PRINT_INTERVAL as usize
                invariant
                    c <= PRINT_INTERVAL,
                    self.rom.glyphs() == glyphs,
                    self.rom.wf(),
                    glyphs.len() == 256,
                    self.raw == raw,
                    reader.source() == bytes,
                    reader.position() == clamped(display_line + c, bytes.len() as int),
                    row@ == r0 + cells_text(bytes, glyphs, raw, display_line as int, c as nat),
                decreases PRINT_INTERVAL - c,
            {
                let b = reader.next();
                assert(b == byte_at(bytes, display_line + c));
                push_cell(&mut row, self.rom.dict(), self.raw, b);
                assert(row@ =~= r0 + cells_text(bytes, glyphs, raw, display_line as int, (c + 1) as nat));
                c = c + 1;
            }
            assert(row@ =~= row_text(bytes, glyphs, raw, width, display_line as int));
            self.screen.println(row.as_str());
            assert(self.screen.pending() =~= s1 + rows_text(bytes, glyphs, raw, width, self.line as int, (r + 1) as nat));
            display_line = display_line + PRINT_INTERVAL as u64;
            r = r + 1;
        }
        assert(self.screen.pending() =~= start + old(self).view_now(rows as nat));
    }
    /// One turn of the loop for command `c`: clear the canvas, show the
    /// title, act, and say what to read next. `quit` changes nothing.
    pub fn step(&mut self, c: Command) -> (r: Step)
        requires
            old(self).wf(),
        ensures
            final(self).wf(),
            r == step_of(c),
            final(self).image() == old(self).image(),
            final(self).glyphs() == old(self).glyphs(),
            final(self).width() == old(self).width(),
            c == Command::Quit ==> {
                &&& final(self).cursor() == old(self).cursor()
                &&& final(self).raw_mode() == old(self).raw_mode()
                &&& final(self).pending() == old(self).pending()
                &&& final(self).printed() == old(self).printed()
            },
            c != Command::Quit ==> {
                &&& final(self).cursor() == paged(c, old(self).cursor(), old(self).image().len() as int)
                &&& final(self).raw_mode() == next_raw(c, old(self).raw_mode())
                &&& final(self).pending() == old(self).pending() + clear_text(old(self).printed()) + TITLE@ + NEWLINE@
                    + body_text(c, old(self).image(), old(self).glyphs(), final(self).raw_mode(), old(self).width(), final(self).cursor())
                &&& final(self).printed() == 1 + body_lines(c)
            },
    {
        if c == Command::Quit {
            return Step::Quit;
        }
        self.screen.clear();
        self.screen.println(TITLE);
        match c {
            Command::Down => {
                if (self.line as i64) + (PAGE as i64) < self.rom.size() as i64 {
                    self.line = self.line + PAGE;
                }
                self.print_rom(0);
                Step::Prompt
            },
            Command::Up => {
                if self.line >= PAGE {
                    self.line = self.line - PAGE;
                }
                self.print_rom(0);
                Step::Prompt
            },
            Command::Raw => {
                self.raw = true;
                Step::Skip
            },
            Command::Eng => {
                self.raw = false;
                Step::Skip
            },
            Command::Goto => {
                self.screen.println(WHERE_TO);
                self.screen.print(HEX_PROMPT);
                Step::AskGotoAddress
            },
            Command::Size => {
                let mut msg = String::new();
                msg.append(SIZE_LABEL);
                push_hex_lower(&mut msg, self.rom.size() as u64);
                self.screen.println(msg.as_str());
                Step::Prompt
            },
            Command::Save => {
                self.screen.println(WHERE_TO);
                self.screen.print(PATH_PROMPT);
                Step::AskSavePath
            },
            Command::Write => {
                self.print_rom(4);
                self.screen.println(WHERE_TO);
                self.screen.print(HEX_PROMPT);
                Step::AskWriteAddress
            },
            _ => {
                self.print_rom(0);
                Step::Prompt
            },
        }
    }

    /// Shows the command prompt; the command typed after it shares its line.
    pub fn prompt(&mut self)
        requires
            old(self).wf(),
        ensures
            final(self).wf(),
            final(self).pending() == old(self).pending() + COMMAND_PROMPT@,
            final(self).printed() == bumped(old(self).printed()),
            final(self).cursor() == old(self).cursor(),
            final(self).raw_mode() == old(self).raw_mode(),
            final(self).image() == old(self).image(),
            final(self).glyphs() == old(self).glyphs(),
            final(self).width() == old(self).width(),
    {
        self.screen.print(COMMAND_PROMPT);
        self.screen.line_entered();
    }

    /// `goto` with the typed address already normalised: move the cursor to
    /// the address rounded down to a row, or say why not.
    pub fn goto_normalized(&mut self, t: &str) -> (r: Step)
        requires
            old(self).wf(),
        ensures
            final(self).wf(),
            final(self).image() == old(self).image(),
            final(self).glyphs() == old(self).glyphs(),
            final(self).width() == old(self).width(),
            final(self).raw_mode() == old(self).raw_mode(),
            final(self).pending() == old(self).pending() + goto_message(t@, old(self).image().len() as int),
            match goto_target(t@, old(self).image().len() as int) {
                Some(c) => {
                    &&& final(self).cursor() == c
                    &&& r == Step::Skip
                    &&& final(self).printed() == old(self).printed()
                },
                None => {
                    &&& final(self).cursor() == old(self).cursor()
                    &&& r == Step::Prompt
                    &&& final(self).printed() == bumped(old(self).printed())
                },
            },
    {
        match parse_hex_i32(t) {
            Ok(v) => {
                if v < 0 {
                    proof {
                        lemma_align_down_negative(v as int);
                    }
                    self.screen.println(OUT_OF_RANGE);
                    return Step::Prompt;
                }
                let aligned: RomSize = (v / PRINT_INTERVAL) * PRINT_INTERVAL;
                proof {
                    lemma_align_down_nonnegative(v as int);
                }
                if aligned < self.rom.size() || aligned == 0 {
                    self.line = aligned;
                    assert(goto_message(t@, self.image().len() as int) =~= Seq::<char>::empty());
                    assert(self.screen.pending() =~= old(self).screen.pending() + Seq::<char>::empty());
                    Step::Skip
                } else {
                    self.screen.println(OUT_OF_RANGE);
                    Step::Prompt
                }
            },
            Err(_) => {
                self.screen.println(BAD_HEX);
                Step::Prompt
            },
        }
    }

    /// `goto` with the line as typed: count it, normalise it, go on as
    /// `goto_normalized` does.
    pub fn goto_entered(&mut self, input: &str) -> (r: Step)
        requires
            old(self).wf(),
        ensures
            final(self).wf(),
            final(self).image() == old(self).image(),
            final(self).glyphs() == old(self).glyphs(),
            final(self).width() == old(self).width(),
            final(self).raw_mode() == old(self).raw_mode(),
            final(self).pending() == old(self).pending() + goto_message(trim_of(lower_of(input@)), old(self).image().len() as int),
            match goto_target(trim_of(lower_of(input@)), old(self).image().len() as int) {
                Some(c) => {
                    &&& final(self).cursor() == c
                    &&& r == Step::Skip
                    &&& final(self).printed() == bumped(old(self).printed())
                },
                None => {
                    &&& final(self).cursor() == old(self).cursor()
                    &&& r == Step::Prompt
                    &&& final(self).printed() == bumped(bumped(old(self).printed()))
                },
            },
    {
        self.screen.line_entered();
        let t = normalize_input(input);
        self.goto_normalized(t.as_str())
    }

    /// `save` with the path as typed: count the line and give the trimmed
    /// path to write to.
    pub fn save_path_entered(&mut self, input: &str) -> (r: String)
        requires
            old(self).wf(),
        ensures
            final(self).wf(),
            r@ == trim_of(input@),
            final(self).pending() == old(self).pending(),
            final(self).printed() == bumped(old(self).printed()),
            final(self).cursor() == old(self).cursor(),
            final(self).raw_mode() == old(self).raw_mode(),
            final(self).image() == old(self).image(),
            final(self).glyphs() == old(self).glyphs(),
            final(self).width() == old(self).width(),
    {
        self.screen.line_entered();
        trim_text(input)
    }

    /// Reports how the save to `path` went.
    pub fn save_finished(&mut self, path: &str, error: Option<String>) -> (r: Step)
        requires
            old(self).wf(),
        ensures
            final(self).wf(),
            r == Step::Prompt,
            final(self).pending() == old(self).pending() + save_message(path@, match error {
                Some(e) => Some(e@),
                None => None,
            }),
            final(self).printed() == bumped(old(self).printed()),
            final(self).cursor() == old(self).cursor(),
            final(self).raw_mode() == old(self).raw_mode(),
            final(self).image() == old(self).image(),
            final(self).glyphs() == old(self).glyphs(),
            final(self).width() == old(self).width(),
    {
        let mut msg = String::new();
        match error {
            None => {
                msg.append(SAVED);
                msg.append(path);
            },
            Some(e) => {
                msg.append(NOT_SAVED);
                msg.append(e.as_str());
            },
        }
        self.screen.println(msg.as_str());
        Step::Prompt
    }

    /// `write` with the typed address normalised: ask for the bytes, or show
    /// why the text is no address.
    pub fn write_address_normalized(&mut self, t: &str) -> (r: Step)
        requires
            old(self).wf(),
        ensures
            final(self).wf(),
            r == write_address_outcome(t@).0,
            final(self).pending() == old(self).pending() + write_address_outcome(t@).1,
            final(self).printed() == bumped(old(self).printed()),
            final(self).cursor() == old(self).cursor(),
            final(self).raw_mode() == old(self).raw_mode(),
            final(self).image() == old(self).image(),
            final(self).glyphs() == old(self).glyphs(),
            final(self).width() == old(self).width(),
    {
        match parse_hex_i32(t) {
            Ok(a) => {
                self.screen.println(BYTES_PROMPT);
                self.screen.print(HEX_PROMPT);
                Step::AskWriteBytes(a)
            },
            Err(e) => {
                let msg = e.message();
                self.screen.println(msg.as_str());
                Step::Prompt
            },
        }
    }

    /// `write` with the address as typed: count the line, normalise it, go
    /// on as `write_address_normalized` does.
    pub fn write_address_entered(&mut self, input: &str) -> (r: Step)
        requires
            old(self).wf(),
        ensures
            final(self).wf(),
            r == write_address_outcome(trim_of(lower_of(input@))).0,
            final(self).pending() == old(self).pending() + write_address_outcome(trim_of(lower_of(input@))).1,
            final(self).printed() == bumped(bumped(old(self).printed())),
            final(self).cursor() == old(self).cursor(),
            final(self).raw_mode() == old(self).raw_mode(),
            final(self).image() == old(self).image(),
            final(self).glyphs() == old(self).glyphs(),
            final(self).width() == old(self).width(),
    {
        self.screen.line_entered();
        let t = normalize_input(input);
        self.write_address_normalized(t.as_str())
    }

    /// `write` with the bytes normalised: patch two hex digits at a time from
    /// `addr` on, stopping at the first chunk that is no byte or the first
    /// address past the image.
    pub fn write_bytes_normalized(&mut self, addr: RomSize, t: &str) -> (r: Step)
        requires
            old(self).wf(),
        ensures
            final(self).wf(),
            final(self).image() == patch(old(self).image(), addr as int, t@).0,
            match patch(old(self).image(), addr as int, t@).1 {
                None => {
                    &&& r == Step::Skip
                    &&& final(self).pending() == old(self).pending()
                    &&& final(self).printed() == old(self).printed()
                },
                Some(m) => {
                    &&& r == Step::Prompt
                    &&& final(self).pending() == old(self).pending() + m + NEWLINE@
                    &&& final(self).printed() == bumped(old(self).printed())
                },
            },
            final(self).cursor() == old(self).cursor(),
            final(self).raw_mode() == old(self).raw_mode(),
            final(self).glyphs() == old(self).glyphs(),
            final(self).width() == old(self).width(),
    {
        let n = t.unicode_len();
        let mut i: RomSize = addr;
        let mut j: usize = 0;
        assert(t@.skip(0) == t@);
        while j < n
            invariant
                n == t@.len(),
                j <= n,
                self.wf(),
                self.screen.pending() == old(self).screen.pending(),
                self.screen.printed() == old(self).screen.printed(),
                self.line == old(self).line,
                self.raw == old(self).raw,
                self.rom.glyphs() == old(self).rom.glyphs(),
                self.rom_size_length == old(self).rom_size_length,
                patch(old(self).image(), addr as int, t@) == patch(self.image(), i as int, t@.skip(j as int)),
            decreases n - j,
        {
            let k: usize = if n - j >= 2 { 2 } else { 1 };
            let chunk = t.substring_char(j, j + k);
            let ghost rest = t@.skip(j as int);
            assert(chunk@ =~= rest.take(k as int));
            assert(rest.skip(k as int) =~= t@.skip((j + k) as int));
            match parse_hex_i32(chunk) {
                Err(e) => {
                    let msg = e.message();
                    self.screen.println(msg.as_str());
                    return Step::Prompt;
                },
                Ok(v) => {
                    if 0 <= i && i < self.rom.size() {
                        proof {
                            lemma_chunk_range(chunk@);
                        }
                        let b: u8 = if v < 0 {
                            (v + 256) as u8
                        } else {
                            v as u8
                        };
                        assert(b == wrap_byte(v as int));
                        self.rom.set_byte(i, b);
                        i = i + 1;
                    } else {
                        self.screen.println(OUT_OF_RANGE);
                        return Step::Prompt;
                    }
                },
            }
            j = j + k;
        }
        assert(t@.skip(n as int) =~= Seq::<char>::empty());
        Step::Skip
    }

    /// `write` with the bytes as typed: count the line, normalise it, go on
    /// as `write_bytes_normalized` does.
    pub fn write_bytes_entered(&mut self, addr: RomSize, input: &str) -> (r: Step)
        requires
            old(self).wf(),
        ensures
            final(self).wf(),
            final(self).image() == patch(old(self).image(), addr as int, trim_of(lower_of(input@))).0,
            final(self).cursor() == old(self).cursor(),
            final(self).raw_mode() == old(self).raw_mode(),
            final(self).glyphs() == old(self).glyphs(),
            final(self).width() == old(self).width(),
            final(self).pending() == old(self).pending() + patch_report(patch(old(self).image(), addr as int, trim_of(lower_of(input@))).1),
            patch(old(self).image(), addr as int, trim_of(lower_of(input@))).1 is None ==> {
                &&& r == Step::Skip
                &&& final(self).printed() == bumped(old(self).printed())
            },
            patch(old(self).image(), addr as int, trim_of(lower_of(input@))).1 is Some ==> {
                &&& r == Step::Prompt
                &&& final(self).printed() == bumped(bumped(old(self).printed()))
            },
    {
        self.screen.line_entered();
        let t = normalize_input(input);
        self.write_bytes_normalized(addr, t.as_str())
    }
}

/// Every character of `t` is a hexadecimal digit.
pub open spec fn all_hex_digits(t: Seq<char>) -> bool {
    forall|i: int| 0 <= i < t.len() ==> (#[trigger] hex_digit_value(t[i])) is Some
}

/// The byte that the `k`-th pair of digits of `t` spells.
pub open spec fn pair_value(t: Seq<char>, k: int) -> int {
    hex_digit_value(t[2 * k])->0 * 16 + hex_digit_value(t[2 * k + 1])->0
}

/// Whatever a command or a `goto` does, the cursor stays a multiple of the
/// row width and an address of the image (or zero).
pub proof fn lemma_cursor_stays_valid(c: Command, cursor: int, size: int, t: Seq<char>)
    requires
        valid_cursor(cursor, size),
    ensures
        valid_cursor(paged(c, cursor, size), size),
        goto_target(t, size) matches Some(n) ==> valid_cursor(n, size),
{
}

/// `goto` with an address of the image moves the cursor to that address
/// rounded down to a multiple of the row width.
pub proof fn lemma_goto_aligns(t: Seq<char>, size: int)
    requires
        parse_hex(t) is Ok,
        0 <= parse_hex(t)->Ok_0 < size,
    ensures
        goto_target(t, size) == Some(align_down(parse_hex(t)->Ok_0)),
        align_down(parse_hex(t)->Ok_0) % PRINT_INTERVAL as int == 0,
        align_down(parse_hex(t)->Ok_0) <= parse_hex(t)->Ok_0 < align_down(parse_hex(t)->Ok_0) + PRINT_INTERVAL,
{
    let v = parse_hex(t)->Ok_0;
    lemma_parse_hex_in_range(t);
    lemma_align_down_nonnegative(v);
    assert(v < (v / 64) * 64 + 64) by (nonlinear_arith)
        requires
            0 <= v,
    {
    };
}

/// `goto` with text that is no hex number leaves the cursor where it was and
/// shows `bad hex`.
pub proof fn lemma_goto_bad_hex(t: Seq<char>, size: int)
    requires
        parse_hex(t) is Err,
    ensures
        goto_target(t, size) is None,
        goto_message(t, size) == BAD_HEX@ + NEWLINE@,
{
}

proof fn lemma_two_digits(t: Seq<char>)
    requires
        t.len() == 2,
        all_hex_digits(t),
    ensures
        parse_hex(t) == Ok::<int, HexError>(pair_value(t, 0)),
        0 <= pair_value(t, 0) <= 255,
{
    assert(hex_digit_value(t[0]) is Some);
    assert(hex_digit_value(t[1]) is Some);
    let d0 = hex_digit_value(t[0])->0;
    let d1 = hex_digit_value(t[1])->0;
    assert(t.skip(1)[0] == t[1]);
    assert(t.skip(1).skip(1).len() == 0);
    assert(scan_hex(t.skip(1).skip(1), false, d0 * 16 + d1) == Ok::<int, HexError>(d0 * 16 + d1));
    assert(scan_hex(t.skip(1), false, d0) == Ok::<int, HexError>(d0 * 16 + d1));
}

/// The `k`-th chunk of two characters of `t`.
pub open spec fn chunk_at(t: Seq<char>, k: int) -> Seq<char> {
    t.subrange(2 * k, 2 * k + 2)
}

/// Writing the text `t`, cut into chunks of two characters that each parse
/// as hex, from `addr` succeeds when the bytes fit in the image; reading
/// from `addr` afterwards gives each chunk's value as a byte, and the other
/// bytes stay as they were.
pub proof fn lemma_write_then_read(bytes: Seq<u8>, addr: int, t: Seq<char>)
    requires
        t.len() % 2 == 0,
        forall|k: int| 0 <= k < t.len() / 2 ==> parse_hex(#[trigger] chunk_at(t, k)) is Ok,
        0 <= addr,
        addr + t.len() / 2 <= bytes.len(),
    ensures
        patch(bytes, addr, t).1 is None,
        patch(bytes, addr, t).0.len() == bytes.len(),
        forall|k: int| 0 <= k < t.len() / 2 ==> #[trigger] patch(bytes, addr, t).0[addr + k] == wrap_byte(parse_hex(chunk_at(t, k))->Ok_0),
        forall|j: int| 0 <= j < bytes.len() && !(addr <= j < addr + t.len() / 2) ==> #[trigger] patch(bytes, addr, t).0[j] == bytes[j],
    decreases t.len(),
{
    if t.len() > 0 {
        let rest = t.skip(2);
        assert(t.take(2) =~= chunk_at(t, 0));
        assert forall|k: int| 0 <= k < rest.len() / 2 implies parse_hex(#[trigger] chunk_at(rest, k)) is Ok by {
            assert(chunk_at(rest, k) =~= chunk_at(t, k + 1));
        }
        let v = parse_hex(chunk_at(t, 0))->Ok_0;
        let b2 = bytes.update(addr, wrap_byte(v));
        lemma_write_then_read(b2, addr + 1, rest);
        let out = patch(b2, addr + 1, rest).0;
        assert(patch(bytes, addr, t) == patch(b2, addr + 1, rest));
        assert forall|k: int| 0 <= k < t.len() / 2 implies #[trigger] out[addr + k] == wrap_byte(parse_hex(chunk_at(t, k))->Ok_0) by {
            if k > 0 {
                assert(out[(addr + 1) + (k - 1)] == wrap_byte(parse_hex(chunk_at(rest, k - 1))->Ok_0));
                assert(chunk_at(rest, k - 1) =~= chunk_at(t, k));
            }
        }
        assert forall|j: int| 0 <= j < bytes.len() && !(addr <= j < addr + t.len() / 2) implies #[trigger] out[j] == bytes[j] by {
            assert(out[j] == b2[j]);
        }
    }
}

/// Writing an even number of hex digits `t` from `addr` succeeds when the
/// bytes fit in the image, and reading from `addr` afterwards gives back the
/// bytes that the digits spell.
pub proof fn lemma_write_hex_digits(bytes: Seq<u8>, addr: int, t: Seq<char>)
    requires
        all_hex_digits(t),
        t.len() % 2 == 0,
        0 <= addr,
        addr + t.len() / 2 <= bytes.len(),
    ensures
        patch(bytes, addr, t).1 is None,
        patch(bytes, addr, t).0.len() == bytes.len(),
        forall|k: int| 0 <= k < t.len() / 2 ==> #[trigger] patch(bytes, addr, t).0[addr + k] == pair_value(t, k) as u8,
{
    assert forall|k: int| 0 <= k < t.len() / 2 implies parse_hex(#[trigger] chunk_at(t, k)) is Ok
        && parse_hex(chunk_at(t, k))->Ok_0 == pair_value(t, k) by {
        let c = chunk_at(t, k);
        assert(c[0] == t[2 * k] && c[1] == t[2 * k + 1]);
        assert(all_hex_digits(c)) by {
            assert forall|i: int| 0 <= i < c.len() implies (#[trigger] hex_digit_value(c[i])) is Some by {
                assert(c[i] == t[2 * k + i]);
            }
        }
        lemma_two_digits(c);
    }
    lemma_write_then_read(bytes, addr, t);
    assert forall|k: int| 0 <= k < t.len() / 2 implies #[trigger] patch(bytes, addr, t).0[addr + k] == pair_value(t, k) as u8 by {
        lemma_two_digits(chunk_at(t, k));
        assert(chunk_at(t, k)[0] == t[2 * k] && chunk_at(t, k)[1] == t[2 * k + 1]);
    }
}

} // verus!

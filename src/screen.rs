//! A line-counting terminal surface. Text is gathered here and handed to the
//! terminal in one piece; the count of lines emitted since the last clear
//! lets the same region be painted over again.
use vstd::prelude::*;
use crate::text::{push_repeated, repeated};

verus! {

/// Widest line that a clear must cover.
pub const LINE_SIZE: usize = 200;
/// Rows of bytes in one view.
pub const ROM_LINE_COUNT: usize = 8;
/// Rows of the canvas besides the prompt's.
pub const LINE_COUNT: usize = ROM_LINE_COUNT + 3;
/// Moves the terminal cursor to the start of the previous line.
pub const UP: &'static str = "\x1B[1F";
/// Ends a line.
pub const NEWLINE: &'static str = "\n";

/// Text that covers one line with spaces and moves to the next.
pub open spec fn blank_line() -> Seq<char> {
    Seq::new(LINE_SIZE as nat, |i: int| ' ') + seq!['\r', '\n']
}

/// What a clear writes when `n` lines were emitted since the previous one:
/// up `n` lines, blank them, and up again.
pub open spec fn clear_text(n: nat) -> Seq<char> {
    repeated(UP@, n) + repeated(blank_line(), n) + repeated(UP@, n)
}

/// What opens the canvas: a blank row for each line and the prompt's, then
/// back up to the first.
pub open spec fn init_text() -> Seq<char> {
    repeated(NEWLINE@, (LINE_COUNT + 1) as nat) + repeated(UP@, (LINE_COUNT + 1) as nat)
}

/// One more line, short of the largest count.
pub open spec fn bumped(n: nat) -> nat {
    if n < usize::MAX {
        n + 1
    } else {
        n
    }
}

/// `k` more lines, short of the largest count.
pub open spec fn bumped_by(n: nat, k: nat) -> nat {
    if n + k <= usize::MAX {
        n + k
    } else {
        usize::MAX as nat
    }
}

pub struct Screen {
    printed_count: usize,
    out: String,
}

impl Screen {
    /// Lines emitted since the last clear.
    pub closed spec fn printed(&self) -> nat {
        self.printed_count as nat
    }

    /// Text gathered and not yet handed to the terminal.
    pub closed spec fn pending(&self) -> Seq<char> {
        self.out@
    }

    pub fn new() -> (r: Screen)
        ensures
            r.printed() == 0,
            r.pending() == Seq::<char>::empty(),
    {
        Screen { printed_count: 0, out: String::new() }
    }

    pub fn printed_count(&self) -> (r: usize)
        ensures
            r == self.printed(),
    {
        self.printed_count
    }

    /// Opens the canvas below the current terminal line.
    pub fn init(&mut self)
        ensures
            final(self).printed() == old(self).printed(),
            final(self).pending() == old(self).pending() + init_text(),
    {
        push_repeated(&mut self.out, NEWLINE, LINE_COUNT + 1);
        push_repeated(&mut self.out, UP, LINE_COUNT + 1);
        assert(self.out@ == old(self).out@ + init_text());
    }

    /// Writes `s` and ends the line.
    pub fn println(&mut self, s: &str)
        ensures
            final(self).printed() == bumped(old(self).printed()),
            final(self).pending() == old(self).pending() + s@ + NEWLINE@,
    {
        self.out.append(s);
        self.out.append(NEWLINE);
        if self.printed_count < usize::MAX {
            self.printed_count = self.printed_count + 1;
        }
    }

    /// Writes `s` without ending the line.
    pub fn print(&mut self, s: &str)
        ensures
            final(self).printed() == old(self).printed(),
            final(self).pending() == old(self).pending() + s@,
    {
        self.out.append(s);
    }

    /// Counts the line that the user's typed input took.
    pub fn line_entered(&mut self)
        ensures
            final(self).printed() == bumped(old(self).printed()),
            final(self).pending() == old(self).pending(),
    {
        if self.printed_count < usize::MAX {
            self.printed_count = self.printed_count + 1;
        }
    }

    /// Paints over every line emitted since the last clear and returns to
    /// the first of them.
    pub fn clear(&mut self)
        ensures
            final(self).printed() == 0,
            final(self).pending() == old(self).pending() + clear_text(old(self).printed()),
    {
        let n = self.printed_count;
        let mut blank = String::new();
        push_repeated(&mut blank, " ", LINE_SIZE);
        blank.append("\r\n");
        proof {
            reveal_strlit(" ");
            reveal_strlit("\r\n");
            assert(" "@ =~= seq![' ']);
            assert("\r\n"@ =~= seq!['\r', '\n']);
            lemma_repeated_char(' ', LINE_SIZE as nat);
        }
        assert(blank@ == blank_line());
        push_repeated(&mut self.out, UP, n);
        push_repeated(&mut self.out, blank.as_str(), n);
        push_repeated(&mut self.out, UP, n);
        self.printed_count = 0;
        assert(self.out@ =~= old(self).out@ + clear_text(n as nat));
    }

    /// Hands over the gathered text, leaving none behind.
    pub fn take_output(&mut self) -> (r: String)
        ensures
            r@ == old(self).pending(),
            final(self).pending() == Seq::<char>::empty(),
            final(self).printed() == old(self).printed(),
    {
        let mut out = String::new();
        std::mem::swap(&mut out, &mut self.out);
        out
    }
}

/// The count of lines always fits a `usize`.
pub proof fn lemma_printed_fits(s: &Screen)
    ensures
        s.printed() <= usize::MAX,
{
}

proof fn lemma_repeated_char(c: char, n: nat)
    ensures
        repeated(seq![c], n) =~= Seq::new(n, |i: int| c),
    decreases n,
{
    if n > 0 {
        lemma_repeated_char(c, (n - 1) as nat);
        assert(Seq::new(n, |i: int| c) =~= Seq::new((n - 1) as nat, |i: int| c).push(c));
    }
}

/// A clear leaves the count at zero, so the line printed next is the
/// canvas's first: it is the next thing written after the clear's text and
/// the count then stands at one.
pub proof fn lemma_println_after_clear(
    before: Screen,
    cleared: Screen,
    after: Screen,
    s: Seq<char>,
)
    requires
        cleared.printed() == 0,
        cleared.pending() == before.pending() + clear_text(before.printed()),
        after.printed() == bumped(cleared.printed()),
        after.pending() == cleared.pending() + s + NEWLINE@,
    ensures
        after.printed() == 1,
        after.pending() == before.pending() + clear_text(before.printed()) + s + NEWLINE@,
{
}

} // verus!

//! The glyph table: a two-character printable form for each byte value,
//! read from the lines of a dictionary text.
use vstd::prelude::*;
use crate::text::{byte_char, push_char};

verus! {

/// The byte `'.'`; two of them make the "no mapping" sentinel.
pub const DOT: u8 = 46;
/// The byte `'#'`, which marks a chunk as a comment.
pub const HASH: u8 = 35;
/// The byte `' '`, which pads a trailing odd byte.
pub const SPACE: u8 = 32;
/// The last glyph index; further glyphs overwrite it.
pub const LAST_INDEX: u8 = 255;

/// The sentinel entry that stands for "no mapping".
pub open spec fn sentinel() -> (u8, u8) {
    (DOT, DOT)
}

/// A table of 256 sentinels: where the parsing starts.
pub open spec fn empty_table() -> Seq<(u8, u8)> {
    Seq::new(256, |i: int| sentinel())
}

/// Parsing state: the table so far and the index the next glyph goes to.
pub type TableState = (Seq<(u8, u8)>, nat);

/// Effect of one chunk of one or two bytes: skipped when its second byte is
/// `'#'`, else stored at the current index (a lone byte padded with a space),
/// the index then moving on by one but never past 255.
pub open spec fn apply_chunk(st: TableState, chunk: Seq<u8>) -> TableState {
    if chunk.len() == 2 && chunk[1] == HASH {
        st
    } else {
        let glyph = (chunk[0], if chunk.len() == 2 { chunk[1] } else { SPACE });
        (st.0.update(st.1 as int, glyph), if st.1 < 255 { st.1 + 1 } else { st.1 })
    }
}

/// Effect of one line, taken in chunks of two bytes from its start.
pub open spec fn apply_line(st: TableState, line: Seq<u8>) -> TableState
    decreases line.len(),
{
    if line.len() == 0 {
        st
    } else if line.len() == 1 {
        apply_chunk(st, line)
    } else {
        apply_line(apply_chunk(st, line.take(2)), line.skip(2))
    }
}

/// Effect of the lines in order.
pub open spec fn apply_lines(st: TableState, lines: Seq<Seq<u8>>) -> TableState
    decreases lines.len(),
{
    if lines.len() == 0 {
        st
    } else {
        apply_lines(apply_line(st, lines[0]), lines.skip(1))
    }
}

/// The table that the dictionary lines describe.
pub open spec fn table_of(lines: Seq<Seq<u8>>) -> Seq<(u8, u8)> {
    apply_lines((empty_table(), 0), lines).0
}

/// Two characters of a stored glyph, each byte read as the character of the
/// same number.
pub open spec fn glyph_text(g: (u8, u8)) -> Seq<char> {
    seq![byte_char(g.0), byte_char(g.1)]
}

/// What a lookup gives for a stored entry.
pub open spec fn lookup(g: (u8, u8)) -> Option<Seq<char>> {
    if g == sentinel() {
        None
    } else {
        Some(glyph_text(g))
    }
}

/// Maps each byte value to a two-character glyph.
pub struct CharDictionary {
    dict: Vec<(u8, u8)>,
}

impl View for CharDictionary {
    type V = Seq<(u8, u8)>;

    closed spec fn view(&self) -> Seq<(u8, u8)> {
        self.dict@
    }
}

impl CharDictionary {
    /// Well-formed: one entry for each byte value.
    pub open spec fn wf(&self) -> bool {
        self@.len() == 256
    }

    /// Builds the table from the dictionary's lines (line ends removed).
    pub fn new(lines: &Vec<Vec<u8>>) -> (r: CharDictionary)
        ensures
            r.wf(),
            r@ == table_of(lines@.map_values(|l: Vec<u8>| l@)),
    {
        let ghost all = lines@.map_values(|l: Vec<u8>| l@);
        let mut dict: Vec<(u8, u8)> = Vec::new();
        while dict.len() < 256
            invariant
                dict@.len() <= 256,
                forall|i: int| 0 <= i < dict@.len() ==> dict@[i] == sentinel(),
            decreases 256 - dict@.len(),
        {
            dict.push((DOT, DOT));
        }
        assert(dict@ =~= empty_table());
        let mut idx: u8 = 0;
        let mut k: usize = 0;
        assert(all.skip(0) == all);
        while k < lines.len()
            invariant
                k <= lines@.len(),
                all == lines@.map_values(|l: Vec<u8>| l@),
                dict@.len() == 256,
                apply_lines((empty_table(), 0), all) == apply_lines((dict@, idx as nat), all.skip(k as int)),
            decreases lines@.len() - k,
        {
            let line = &lines[k];
            assert(all.skip(k as int)[0] == line@);
            assert(all.skip(k as int).skip(1) == all.skip(k + 1));
            let mut j: usize = 0;
            let ghost st0: TableState = (dict@, idx as nat);
            assert(line@.skip(0) == line@);
            while j < line.len()
                invariant
                    j <= line@.len(),
                    dict@.len() == 256,
                    apply_line(st0, line@) == apply_line((dict@, idx as nat), line@.skip(j as int)),
                decreases line@.len() - j,
            {
                let ghost rest = line@.skip(j as int);
                let first = line[j];
                let two = j + 1 < line.len();
                let comment = two && line[j + 1] == HASH;
                if !comment {
                    let second = if two { line[j + 1] } else { SPACE };
                    dict.set(idx as usize, (first, second));
                    if idx < LAST_INDEX {
                        idx = idx + 1;
                    }
                }
                if two {
                    assert(rest.take(2) =~= seq![first, line@[j + 1]]);
                    assert(rest.skip(2) =~= line@.skip(j + 2));
                    j = j + 2;
                } else {
                    assert(rest =~= seq![first]);
                    assert(line@.skip(j + 1) =~= Seq::<u8>::empty());
                    j = j + 1;
                }
            }
            assert(line@.skip(j as int) =~= Seq::<u8>::empty());
            k = k + 1;
        }
        assert(all.skip(k as int) =~= Seq::<Seq<u8>>::empty());
        CharDictionary { dict }
    }

    /// The glyph for byte `i`, or `None` where the table holds the sentinel.
    pub fn get(&self, i: u8) -> (r: Option<String>)
        requires
            self.wf(),
        ensures
            match lookup(self@[i as int]) {
                Some(t) => r matches Some(s) && s@ == t,
                None => r is None,
            },
    {
        let (a, b) = self.dict[i as usize];
        if a == DOT && b == DOT {
            None
        } else {
            let mut s = String::new();
            push_char(&mut s, a as char);
            push_char(&mut s, b as char);
            Some(s)
        }
    }
}

/// Every lookup gives either no mapping or exactly two characters.
pub proof fn lemma_lookup_two_chars(d: &CharDictionary, b: u8)
    requires
        d.wf(),
    ensures
        lookup(d@[b as int]) matches Some(t) ==> t.len() == 2,
{
}

} // verus!

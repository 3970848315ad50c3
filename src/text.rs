//! Character-level helpers: hexadecimal formatting and parsing, literal
//! comparison, and the two normalisations applied to typed input.
use vstd::prelude::*;

verus! {

/// The character whose number is the byte's value.
pub open spec fn byte_char(b: u8) -> char {
    (b as u32) as char
}

/// Lower-case hexadecimal digit for a value below sixteen.
pub open spec fn hex_digit_lower(d: nat) -> char {
    if d < 10 {
        (48 + d) as char
    } else {
        (87 + d) as char
    }
}

/// Upper-case hexadecimal digit for a value below sixteen.
pub open spec fn hex_digit_upper(d: nat) -> char {
    if d < 10 {
        (48 + d) as char
    } else {
        (55 + d) as char
    }
}

/// Shortest lower-case hexadecimal rendering of `n` (`"0"` for zero).
pub open spec fn hex_lower(n: nat) -> Seq<char>
    decreases n,
{
    if n < 16 {
        seq![hex_digit_lower(n)]
    } else {
        hex_lower(n / 16).push(hex_digit_lower(n % 16))
    }
}

/// `s` preceded by as many `'0'` as it takes to reach `width` characters.
pub open spec fn zero_padded(s: Seq<char>, width: nat) -> Seq<char> {
    if s.len() >= width {
        s
    } else {
        Seq::new((width - s.len()) as nat, |i: int| '0') + s
    }
}

/// `n` copies of `s` one after the other.
pub open spec fn repeated(s: Seq<char>, n: nat) -> Seq<char>
    decreases n,
{
    if n == 0 {
        Seq::empty()
    } else {
        repeated(s, (n - 1) as nat) + s
    }
}

/// Value of a hexadecimal digit of either case, if `c` is one.
pub open spec fn hex_digit_value(c: char) -> Option<int> {
    if '0' <= c && c <= '9' {
        Some(c as int - 48)
    } else if 'a' <= c && c <= 'f' {
        Some(c as int - 87)
    } else if 'A' <= c && c <= 'F' {
        Some(c as int - 55)
    } else {
        None
    }
}

/// Why a piece of text is not a hexadecimal `i32`.
#[derive(Clone, Copy, Debug, PartialEq, Eq, Structural)]
pub enum HexError {
    Empty,
    InvalidDigit,
    PosOverflow,
    NegOverflow,
}

impl HexError {
    /// The diagnostic shown to the user for this error.
    pub fn message(&self) -> (r: String)
        ensures
            r@ == hex_error_message(*self),
    {
        match self {
            HexError::Empty => String::from_str("ParseIntError { kind: Empty }"),
            HexError::InvalidDigit => String::from_str("ParseIntError { kind: InvalidDigit }"),
            HexError::PosOverflow => String::from_str("ParseIntError { kind: PosOverflow }"),
            HexError::NegOverflow => String::from_str("ParseIntError { kind: NegOverflow }"),
        }
    }
}

pub open spec fn hex_error_message(e: HexError) -> Seq<char> {
    match e {
        HexError::Empty => "ParseIntError { kind: Empty }"@,
        HexError::InvalidDigit => "ParseIntError { kind: InvalidDigit }"@,
        HexError::PosOverflow => "ParseIntError { kind: PosOverflow }"@,
        HexError::NegOverflow => "ParseIntError { kind: NegOverflow }"@,
    }
}

/// Reads `digits` left to right onto `acc`, stopping at the first character
/// that is not a digit or at the first step that leaves the `i32` range.
pub open spec fn scan_hex(digits: Seq<char>, neg: bool, acc: int) -> Result<int, HexError>
    decreases digits.len(),
{
    if digits.len() == 0 {
        Ok(acc)
    } else {
        match hex_digit_value(digits[0]) {
            None => Err(HexError::InvalidDigit),
            Some(d) => {
                let next = if neg {
                    acc * 16 - d
                } else {
                    acc * 16 + d
                };
                if next > i32::MAX {
                    Err(HexError::PosOverflow)
                } else if next < i32::MIN {
                    Err(HexError::NegOverflow)
                } else {
                    scan_hex(digits.skip(1), neg, next)
                }
            },
        }
    }
}

/// A signed hexadecimal `i32`: an optional `+` or `-`, then one or more
/// digits of either case.
pub open spec fn parse_hex(s: Seq<char>) -> Result<int, HexError> {
    if s.len() == 0 {
        Err(HexError::Empty)
    } else if (s[0] == '+' || s[0] == '-') && s.len() == 1 {
        Err(HexError::InvalidDigit)
    } else if s[0] == '+' {
        scan_hex(s.skip(1), false, 0)
    } else if s[0] == '-' {
        scan_hex(s.skip(1), true, 0)
    } else {
        scan_hex(s, false, 0)
    }
}

proof fn lemma_scan_in_range(digits: Seq<char>, neg: bool, acc: int)
    requires
        i32::MIN <= acc <= i32::MAX,
    ensures
        scan_hex(digits, neg, acc) matches Ok(v) ==> i32::MIN <= v <= i32::MAX,
    decreases digits.len(),
{
    if digits.len() > 0 {
        if let Some(d) = hex_digit_value(digits[0]) {
            let next = if neg { acc * 16 - d } else { acc * 16 + d };
            if i32::MIN <= next <= i32::MAX {
                lemma_scan_in_range(digits.skip(1), neg, next);
            }
        }
    }
}

/// Every value that `parse_hex` accepts is an `i32`.
pub proof fn lemma_parse_hex_in_range(s: Seq<char>)
    ensures
        parse_hex(s) matches Ok(v) ==> i32::MIN <= v <= i32::MAX,
{
    lemma_scan_in_range(s, false, 0);
    if s.len() > 0 {
        lemma_scan_in_range(s.skip(1), false, 0);
        lemma_scan_in_range(s.skip(1), true, 0);
    }
}

/// Relies on `String::push`: the character is appended at the end.
#[verifier::external_body]
pub(crate) fn push_char(s: &mut String, c: char)
    ensures
        final(s)@ == old(s)@.push(c),
{
    s.push(c);
}

/// Whether `c` has Unicode's White_Space property.
pub open spec fn is_white_space(c: char) -> bool {
    ||| ('\u{9}' <= c && c <= '\u{d}')
    ||| c == ' '
    ||| c == '\u{85}'
    ||| c == '\u{a0}'
    ||| c == '\u{1680}'
    ||| ('\u{2000}' <= c && c <= '\u{200a}')
    ||| c == '\u{2028}'
    ||| c == '\u{2029}'
    ||| c == '\u{202f}'
    ||| c == '\u{205f}'
    ||| c == '\u{3000}'
}

/// `s` without its leading white space.
pub open spec fn trim_start_of(s: Seq<char>) -> Seq<char>
    decreases s.len(),
{
    if s.len() > 0 && is_white_space(s[0]) {
        trim_start_of(s.skip(1))
    } else {
        s
    }
}

/// `s` without its trailing white space.
pub open spec fn trim_end_of(s: Seq<char>) -> Seq<char>
    decreases s.len(),
{
    if s.len() > 0 && is_white_space(s.last()) {
        trim_end_of(s.drop_last())
    } else {
        s
    }
}

/// `s` without leading or trailing white space.
pub open spec fn trim_of(s: Seq<char>) -> Seq<char> {
    trim_end_of(trim_start_of(s))
}

/// What `str::to_lowercase` makes of a piece of text.
pub uninterp spec fn lower_of(s: Seq<char>) -> Seq<char>;

/// Relies on `str::trim`: leading and trailing characters with the
/// White_Space property removed.
#[verifier::external_body]
pub(crate) fn trim_text(s: &str) -> (r: String)
    ensures
        r@ == trim_of(s@),
{
    s.trim().to_string()
}

/// Relies on `str::to_lowercase`: the result depends on the characters alone.
#[verifier::external_body]
pub(crate) fn lowercase_text(s: &str) -> (r: String)
    ensures
        r@ == lower_of(s@),
{
    s.to_lowercase()
}

/// Whether two pieces of text hold the same characters.
pub fn same_text(a: &str, b: &str) -> (r: bool)
    ensures
        r == (a@ == b@),
{
    let n = a.unicode_len();
    if n != b.unicode_len() {
        return false;
    }
    let mut i: usize = 0;
    while i < n
        invariant
            n == a@.len(),
            n == b@.len(),
            i <= n,
            a@.take(i as int) == b@.take(i as int),
        decreases n - i,
    {
        if a.get_char(i) != b.get_char(i) {
            assert(a@[i as int] != b@[i as int]);
            return false;
        }
        assert(a@.take(i + 1) == a@.take(i as int).push(a@[i as int]));
        assert(b@.take(i + 1) == b@.take(i as int).push(b@[i as int]));
        i = i + 1;
    }
    assert(a@ == a@.take(n as int));
    assert(b@ == b@.take(n as int));
    true
}

/// Appends `n` copies of `piece` to `out`.
pub fn push_repeated(out: &mut String, piece: &str, n: usize)
    ensures
        final(out)@ == old(out)@ + repeated(piece@, n as nat),
{
    let mut k: usize = 0;
    while k < n
        invariant
            k <= n,
            out@ == old(out)@ + repeated(piece@, k as nat),
        decreases n - k,
    {
        out.append(piece);
        assert(repeated(piece@, (k + 1) as nat) == repeated(piece@, k as nat) + piece@);
        assert(old(out)@ + repeated(piece@, (k + 1) as nat) == (old(out)@ + repeated(piece@, k as nat)) + piece@);
        k = k + 1;
    }
}

pub fn hex_digit_lower_exec(d: u8) -> (r: char)
    requires
        d < 16,
    ensures
        r == hex_digit_lower(d as nat),
{
    if d < 10 {
        (48 + d) as char
    } else {
        (87 + d) as char
    }
}

pub fn hex_digit_upper_exec(d: u8) -> (r: char)
    requires
        d < 16,
    ensures
        r == hex_digit_upper(d as nat),
{
    if d < 10 {
        (48 + d) as char
    } else {
        (55 + d) as char
    }
}

/// Appends the lower-case hexadecimal rendering of `n`.
pub fn push_hex_lower(out: &mut String, n: u64)
    ensures
        final(out)@ == old(out)@ + hex_lower(n as nat),
    decreases n,
{
    if n < 16 {
        push_char(out, hex_digit_lower_exec(n as u8));
        assert(hex_lower(n as nat) == seq![hex_digit_lower(n as nat)]);
    } else {
        push_hex_lower(out, n / 16);
        push_char(out, hex_digit_lower_exec((n % 16) as u8));
        assert(hex_lower(n as nat) == hex_lower((n / 16) as nat).push(hex_digit_lower((n % 16) as nat)));
    }
}

/// Number of characters in the lower-case hexadecimal rendering of `n`.
pub fn hex_len(n: u64) -> (r: usize)
    ensures
        r == hex_lower(n as nat).len(),
        1 <= r <= 16,
    decreases n,
{
    if n < 16 {
        1
    } else {
        let k = hex_len(n / 16);
        proof {
            lemma_hex_len_bound(n as nat);
        }
        k + 1
    }
}

spec fn pow16(k: nat) -> nat
    decreases k,
{
    if k == 0 {
        1
    } else {
        16 * pow16((k - 1) as nat)
    }
}

proof fn lemma_hex_len_within(n: nat, k: nat)
    requires
        k >= 1,
        n < pow16(k),
    ensures
        1 <= hex_lower(n).len() <= k,
    decreases n,
{
    if n >= 16 {
        if k == 1 {
            assert(pow16(1) == 16 * pow16(0));
        } else {
            lemma_hex_len_within(n / 16, (k - 1) as nat);
        }
    }
}

proof fn lemma_hex_len_bound(n: nat)
    ensures
        n < 0x1_0000_0000_0000_0000 ==> hex_lower(n).len() <= 16,
        hex_lower(n).len() >= 1,
{
    reveal_with_fuel(pow16, 17);
    assert(pow16(16) == 0x1_0000_0000_0000_0000);
    if n < 0x1_0000_0000_0000_0000 {
        lemma_hex_len_within(n, 16);
    }
}

/// Appends `n` in lower-case hexadecimal, zero-padded to `width` characters.
pub fn push_hex_padded(out: &mut String, n: u64, width: usize)
    ensures
        final(out)@ == old(out)@ + zero_padded(hex_lower(n as nat), width as nat),
{
    let len = hex_len(n);
    let ghost start = out@;
    if len < width {
        let mut k: usize = len;
        while k < width
            invariant
                len <= k <= width,
                out@ == start + Seq::new((k - len) as nat, |i: int| '0'),
            decreases width - k,
        {
            push_char(out, '0');
            assert(Seq::new((k + 1 - len) as nat, |i: int| '0') == Seq::new((k - len) as nat, |i: int| '0').push('0'));
            k = k + 1;
        }
    }
    let ghost mid = out@;
    push_hex_lower(out, n);
    if len < width {
        assert(out@ == start + (Seq::new((width - len) as nat, |i: int| '0') + hex_lower(n as nat)));
    } else {
        assert(mid == start);
    }
}

/// Appends a byte as two upper-case hexadecimal digits.
pub fn push_hex_byte_upper(out: &mut String, b: u8)
    ensures
        final(out)@ == old(out)@ + seq![hex_digit_upper((b / 16) as nat), hex_digit_upper((b % 16) as nat)],
{
    push_char(out, hex_digit_upper_exec(b / 16));
    push_char(out, hex_digit_upper_exec(b % 16));
}

pub fn hex_digit_value_exec(c: char) -> (r: Option<u8>)
    ensures
        match hex_digit_value(c) {
            Some(v) => r == Some(v as u8),
            None => r is None,
        },
        r matches Some(v) ==> v < 16,
{
    if '0' <= c && c <= '9' {
        Some(((c as u32) - 48) as u8)
    } else if 'a' <= c && c <= 'f' {
        Some(((c as u32) - 87) as u8)
    } else if 'A' <= c && c <= 'F' {
        Some(((c as u32) - 55) as u8)
    } else {
        None
    }
}

/// Parses `s` as a signed hexadecimal `i32`.
pub fn parse_hex_i32(s: &str) -> (r: Result<i32, HexError>)
    ensures
        match parse_hex(s@) {
            Ok(v) => r matches Ok(x) && x == v,
            Err(e) => r == Err::<i32, HexError>(e),
        },
{
    proof {
        lemma_parse_hex_in_range(s@);
    }
    let n = s.unicode_len();
    if n == 0 {
        return Err(HexError::Empty);
    }
    let first = s.get_char(0);
    if (first == '+' || first == '-') && n == 1 {
        return Err(HexError::InvalidDigit);
    }
    let neg = first == '-';
    let start: usize = if first == '+' || first == '-' { 1 } else { 0 };
    assert(parse_hex(s@) == scan_hex(s@.skip(start as int), neg, 0)) by {
        assert(s@.skip(0) == s@);
    }
    let mut acc: i64 = 0;
    let mut i: usize = start;
    while i < n
        invariant
            n == s@.len(),
            start <= i <= n,
            i32::MIN <= acc <= i32::MAX,
            parse_hex(s@) == scan_hex(s@.skip(i as int), neg, acc as int),
        decreases n - i,
    {
        let c = s.get_char(i);
        assert(s@.skip(i as int)[0] == c);
        assert(s@.skip(i as int).skip(1) == s@.skip(i + 1));
        match hex_digit_value_exec(c) {
            None => {
                return Err(HexError::InvalidDigit);
            },
            Some(d) => {
                let next: i64 = if neg {
                    acc * 16 - d as i64
                } else {
                    acc * 16 + d as i64
                };
                if next > i32::MAX as i64 {
                    return Err(HexError::PosOverflow);
                } else if next < i32::MIN as i64 {
                    return Err(HexError::NegOverflow);
                }
                acc = next;
            },
        }
        i = i + 1;
    }
    assert(s@.skip(n as int).len() == 0);
    Ok(acc as i32)
}

} // verus!

//! A fixed-length immutable byte value with hex-text and raw-binary
//! round-tripping.
//!
//! `HexString<N>` always holds exactly `N` bytes. It parses from a string of
//! hex digits with an optional `0x` prefix (both character cases accepted),
//! and renders back as `0x` followed by exactly `2 * N` lowercase hex digits.

use vstd::prelude::*;

verus! {

/// Why parsing text into a fixed-length byte value failed.
#[derive(Clone, Copy, Debug, PartialEq, Eq, Structural)]
pub enum FormatError {
    /// The digits after the optional `0x` prefix have an odd count.
    OddLength,
    /// A character after the optional `0x` prefix is not a hex digit.
    InvalidChar,
    /// The decoded byte count differs from the expected length.
    WrongLength,
}

/// Whether `c` is a hex digit, in either case.
pub open spec fn is_hex_digit(c: char) -> bool {
    ('0' <= c && c <= '9') || ('a' <= c && c <= 'f') || ('A' <= c && c <= 'F')
}

/// The numeric value of the hex digit `c` (0 for a non-digit).
pub open spec fn hex_val(c: char) -> u8 {
    if '0' <= c && c <= '9' {
        (c as u8 - '0' as u8) as u8
    } else if 'a' <= c && c <= 'f' {
        (c as u8 - 'a' as u8 + 10) as u8
    } else if 'A' <= c && c <= 'F' {
        (c as u8 - 'A' as u8 + 10) as u8
    } else {
        0
    }
}

/// The lowercase hex digit with numeric value `n`, for `n < 16`.
pub open spec fn hex_char_of(n: u8) -> char
    recommends
        n < 16,
{
    if n == 0 { '0' } else if n == 1 { '1' } else if n == 2 { '2' } else if n == 3 { '3' }
    else if n == 4 { '4' } else if n == 5 { '5' } else if n == 6 { '6' } else if n == 7 { '7' }
    else if n == 8 { '8' } else if n == 9 { '9' } else if n == 10 { 'a' } else if n == 11 { 'b' }
    else if n == 12 { 'c' } else if n == 13 { 'd' } else if n == 14 { 'e' } else { 'f' }
}

/// `c` with an uppercase hex digit replaced by its lowercase form.
pub open spec fn to_lower_hex(c: char) -> char {
    if 'A' <= c && c <= 'F' {
        hex_char_of((c as u8 - 'A' as u8 + 10) as u8)
    } else {
        c
    }
}

/// The lowercase hex digits of `b`: two per byte, high nibble first.
pub open spec fn hex_chars_of(b: Seq<u8>) -> Seq<char> {
    Seq::new(2 * b.len(), |i: int|
        if i % 2 == 0 {
            hex_char_of((b[i / 2] / 16) as u8)
        } else {
            hex_char_of((b[i / 2] % 16) as u8)
        })
}

/// The hex text rendering of `b`: `0x` followed by its lowercase hex digits.
pub open spec fn text_of(b: Seq<u8>) -> Seq<char> {
    seq!['0', 'x'] + hex_chars_of(b)
}

/// `s` with a leading `0x` removed, if it has one.
pub open spec fn strip_hex_prefix(s: Seq<char>) -> Seq<char> {
    if s.len() >= 2 && s[0] == '0' && s[1] == 'x' {
        s.subrange(2, s.len() as int)
    } else {
        s
    }
}

/// The bytes encoded by an even-length sequence of hex digits.
pub open spec fn hex_decode(s: Seq<char>) -> Seq<u8>
    recommends
        s.len() % 2 == 0,
        forall|i: int| 0 <= i < s.len() ==> is_hex_digit(s[i]),
{
    Seq::new(s.len() / 2, |i: int| (hex_val(s[2 * i]) * 16 + hex_val(s[2 * i + 1])) as u8)
}

/// What parsing `s` as an `n`-byte hex value returns: the optional `0x`
/// prefix is stripped; then an odd digit count, a non-hex character, and a
/// decoded length other than `n` are rejected, in that order.
pub open spec fn parse_result(s: Seq<char>, n: nat) -> Result<Seq<u8>, FormatError> {
    let t = strip_hex_prefix(s);
    if t.len() % 2 != 0 {
        Err(FormatError::OddLength)
    } else if exists|i: int| 0 <= i < t.len() && !is_hex_digit(t[i]) {
        Err(FormatError::InvalidChar)
    } else if t.len() / 2 != n {
        Err(FormatError::WrongLength)
    } else {
        Ok(hex_decode(t))
    }
}

/// The value of the hex digit `c`, or `None` for any other character.
fn hex_digit(c: char) -> (r: Option<u8>)
    ensures
        r is Some <==> is_hex_digit(c),
        r matches Some(v) ==> v == hex_val(c) && v < 16,
{
    if '0' <= c && c <= '9' {
        Some((c as u32 - 48) as u8)
    } else if 'a' <= c && c <= 'f' {
        Some((c as u32 - 97 + 10) as u8)
    } else if 'A' <= c && c <= 'F' {
        Some((c as u32 - 65 + 10) as u8)
    } else {
        None
    }
}

/// The one-character string holding the lowercase hex digit of value `n`.
fn hex_char_str(n: u8) -> (r: &'static str)
    requires
        n < 16,
    ensures
        r@ =~= seq![hex_char_of(n)],
{
    proof {
        reveal_strlit("0");
        reveal_strlit("1");
        reveal_strlit("2");
        reveal_strlit("3");
        reveal_strlit("4");
        reveal_strlit("5");
        reveal_strlit("6");
        reveal_strlit("7");
        reveal_strlit("8");
        reveal_strlit("9");
        reveal_strlit("a");
        reveal_strlit("b");
        reveal_strlit("c");
        reveal_strlit("d");
        reveal_strlit("e");
        reveal_strlit("f");
    }
    match n {
        0 => "0",
        1 => "1",
        2 => "2",
        3 => "3",
        4 => "4",
        5 => "5",
        6 => "6",
        7 => "7",
        8 => "8",
        9 => "9",
        10 => "a",
        11 => "b",
        12 => "c",
        13 => "d",
        14 => "e",
        _ => "f",
    }
}

/// An immutable value of exactly `N` bytes.
#[derive(Debug)]
pub struct HexString<const N: usize> {
    bytes: Vec<u8>,
}

impl<const N: usize> HexString<N> {
    #[verifier::type_invariant]
    spec fn length_fixed(self) -> bool {
        self.bytes@.len() == N
    }
}

impl<const N: usize> View for HexString<N> {
    type V = Seq<u8>;

    closed spec fn view(&self) -> Seq<u8> {
        self.bytes@
    }
}

impl<const N: usize> HexString<N> {
    /// Wraps a byte sequence already known to have length `N`.
    pub(crate) fn from_exact_bytes(bytes: Vec<u8>) -> (r: Self)
        requires
            bytes@.len() == N,
        ensures
            r@ == bytes@,
    {
        HexString { bytes }
    }

    /// Wraps `bytes` if it holds exactly `N` of them; rejects any other count.
    pub fn from_raw_bytes(bytes: Vec<u8>) -> (r: Result<Self, FormatError>)
        ensures
            bytes@.len() == N ==> (r matches Ok(h) && h@ == bytes@),
            bytes@.len() != N ==> r == Err::<Self, FormatError>(FormatError::WrongLength),
    {
        if bytes.len() == N {
            Ok(HexString { bytes })
        } else {
            Err(FormatError::WrongLength)
        }
    }

    /// Parses hex text, with an optional `0x` prefix and hex digits of either
    /// case, into an `N`-byte value; `parse_result` says exactly which inputs
    /// are accepted and which error each rejected input gets.
    pub fn parse_from_text(s: &str) -> (r: Result<Self, FormatError>)
        ensures
            match r {
                Ok(h) => parse_result(s@, N as nat) == Ok::<Seq<u8>, FormatError>(h@),
                Err(e) => parse_result(s@, N as nat) == Err::<Seq<u8>, FormatError>(e),
            },
    {
        let len = s.unicode_len();
        let start: usize = if len >= 2 && s.get_char(0) == '0' && s.get_char(1) == 'x' {
            2
        } else {
            0
        };
        let ghost t = strip_hex_prefix(s@);
        proof {
            assert(t =~= s@.subrange(start as int, len as int));
        }
        let m = len - start;
        if m % 2 != 0 {
            return Err(FormatError::OddLength);
        }
        let mut bytes: Vec<u8> = Vec::new();
        let mut i: usize = 0;
        while i < m
            invariant
                start + m == len,
                len == s@.len(),
                t == strip_hex_prefix(s@),
                t =~= s@.subrange(start as int, len as int),
                m % 2 == 0,
                i % 2 == 0,
                i <= m,
                forall|j: int| 0 <= j < i ==> is_hex_digit(t[j]),
                bytes@ =~= hex_decode(t.take(i as int)),
            decreases m - i,
        {
            let hi = hex_digit(s.get_char(start + i));
            let lo = hex_digit(s.get_char(start + i + 1));
            match (hi, lo) {
                (Some(h), Some(l)) => {
                    bytes.push(h * 16 + l);
                    proof {
                        assert(hex_decode(t.take(i + 2)) =~= hex_decode(t.take(i as int)).push(
                            (hex_val(t[i as int]) * 16 + hex_val(t[i + 1])) as u8,
                        ));
                    }
                    i += 2;
                },
                _ => {
                    proof {
                        assert(i + 2 <= m);
                        assert(t[i as int] == s@[start + i]);
                        assert(t[i + 1] == s@[start + i + 1]);
                        assert(!is_hex_digit(t[i as int]) || !is_hex_digit(t[i + 1]));
                        if !is_hex_digit(t[i as int]) {
                            lemma_parse_result_invalid_char(s@, N as nat, i as int);
                        } else {
                            lemma_parse_result_invalid_char(s@, N as nat, i + 1);
                        }
                    }
                    return Err(FormatError::InvalidChar);
                },
            }
        }
        proof {
            assert(t.take(m as int) =~= t);
        }
        if bytes.len() != N {
            return Err(FormatError::WrongLength);
        }
        Ok(HexString { bytes })
    }

    /// Renders the value as `0x` followed by exactly `2 * N` lowercase hex
    /// digits.
    pub fn render_to_text(&self) -> (r: String)
        ensures
            r@ == text_of(self@),
            r@.len() == 2 + 2 * N,
    {
        proof {
            use_type_invariant(&*self);
            reveal_strlit("0x");
        }
        let mut out = String::from_str("0x");
        proof {
            assert(out@ =~= seq!['0', 'x']);
            assert(self@.take(0) =~= Seq::<u8>::empty());
            assert(out@ =~= seq!['0', 'x'] + hex_chars_of(self@.take(0)));
        }
        let mut i: usize = 0;
        while i < self.bytes.len()
            invariant
                self.bytes@.len() == N,
                self@ == self.bytes@,
                i <= N,
                out@ =~= seq!['0', 'x'] + hex_chars_of(self@.take(i as int)),
            decreases N - i,
        {
            let b = self.bytes[i];
            out.append(hex_char_str(b / 16));
            out.append(hex_char_str(b % 16));
            proof {
                lemma_hex_chars_of_snoc(self@, i as int);
            }
            i += 1;
        }
        proof {
            assert(self@.take(N as int) =~= self@);
            assert(out@ == text_of(self@));
        }
        out
    }

    /// The raw `N`-byte sequence, unchanged and in order.
    pub fn render_to_binary(&self) -> (r: Vec<u8>)
        ensures
            r@ == self@,
            r@.len() == N,
    {
        proof {
            use_type_invariant(&*self);
        }
        let mut out: Vec<u8> = Vec::new();
        let mut i: usize = 0;
        while i < self.bytes.len()
            invariant
                i <= self.bytes@.len(),
                out@ == self.bytes@.take(i as int),
            decreases self.bytes@.len() - i,
        {
            out.push(self.bytes[i]);
            i += 1;
        }
        proof {
            assert(self.bytes@.take(self.bytes@.len() as int) =~= self.bytes@);
        }
        out
    }
}

impl<const N: usize> PartialEq for HexString<N> {
    /// Byte-wise equality of the two values.
    fn eq(&self, other: &Self) -> (r: bool) {
        proof {
            use_type_invariant(&*self);
            use_type_invariant(&*other);
        }
        let mut i: usize = 0;
        while i < self.bytes.len()
            invariant
                self.bytes@.len() == N,
                other.bytes@.len() == N,
                i <= N,
                forall|j: int| 0 <= j < i ==> self.bytes@[j] == other.bytes@[j],
            decreases N - i,
        {
            if self.bytes[i] != other.bytes[i] {
                return false;
            }
            i += 1;
        }
        proof {
            assert(self.bytes@ =~= other.bytes@);
        }
        true
    }
}

impl<const N: usize> vstd::std_specs::cmp::PartialEqSpecImpl for HexString<N> {
    open spec fn obeys_eq_spec() -> bool {
        true
    }

    open spec fn eq_spec(&self, other: &Self) -> bool {
        self@ == other@
    }
}

/// The lexicographic order of two byte sequences of equal length.
pub open spec fn lex_cmp(a: Seq<u8>, b: Seq<u8>) -> core::cmp::Ordering
    recommends
        a.len() == b.len(),
    decreases a.len(),
{
    if a.len() == 0 || b.len() == 0 {
        core::cmp::Ordering::Equal
    } else if a[0] < b[0] {
        core::cmp::Ordering::Less
    } else if a[0] > b[0] {
        core::cmp::Ordering::Greater
    } else {
        lex_cmp(a.drop_first(), b.drop_first())
    }
}

impl<const N: usize> PartialOrd for HexString<N> {
    /// Exact byte-wise lexicographic comparison.
    fn partial_cmp(&self, other: &Self) -> (r: Option<core::cmp::Ordering>) {
        proof {
            use_type_invariant(&*self);
            use_type_invariant(&*other);
            assert(self@.skip(0) =~= self@);
            assert(other@.skip(0) =~= other@);
        }
        let mut i: usize = 0;
        while i < self.bytes.len()
            invariant
                self.bytes@.len() == N,
                other.bytes@.len() == N,
                self@ == self.bytes@,
                other@ == other.bytes@,
                i <= N,
                lex_cmp(self@, other@) == lex_cmp(
                    self@.skip(i as int),
                    other@.skip(i as int),
                ),
            decreases N - i,
        {
            let a = self.bytes[i];
            let b = other.bytes[i];
            proof {
                assert(self@.skip(i as int)[0] == a);
                assert(other@.skip(i as int)[0] == b);
                assert(self@.skip(i as int).drop_first() =~= self@.skip(i + 1));
                assert(other@.skip(i as int).drop_first() =~= other@.skip(i + 1));
            }
            if a < b {
                return Some(core::cmp::Ordering::Less);
            }
            if a > b {
                return Some(core::cmp::Ordering::Greater);
            }
            i += 1;
        }
        proof {
            assert(self@.skip(N as int).len() == 0);
        }
        Some(core::cmp::Ordering::Equal)
    }
}

impl<const N: usize> vstd::std_specs::cmp::PartialOrdSpecImpl for HexString<N> {
    open spec fn obeys_partial_cmp_spec() -> bool {
        true
    }

    open spec fn partial_cmp_spec(&self, other: &Self) -> Option<core::cmp::Ordering> {
        Some(lex_cmp(self@, other@))
    }
}

/// A hex digit and its numeric value determine each other: encoding a nibble
/// and reading it back is the identity, and the encoded digit is lowercase.
pub proof fn lemma_hex_digit_round_trip(n: u8)
    requires
        n < 16,
    ensures
        is_hex_digit(hex_char_of(n)),
        hex_val(hex_char_of(n)) == n,
        to_lower_hex(hex_char_of(n)) == hex_char_of(n),
{
}

/// A hex digit's value is below 16.
pub proof fn lemma_hex_val_bound(c: char)
    requires
        is_hex_digit(c),
    ensures
        hex_val(c) < 16,
{
}

/// Re-encoding a hex digit's value gives the digit back, lowercased.
pub proof fn lemma_hex_char_of_hex_val(c: char)
    requires
        is_hex_digit(c),
    ensures
        hex_char_of(hex_val(c)) == to_lower_hex(c),
{
}

/// Decoding the hex digits of a byte sequence gives the bytes back.
pub proof fn lemma_hex_decode_of_hex_chars(b: Seq<u8>)
    ensures
        hex_decode(hex_chars_of(b)) =~= b,
{
    let h = hex_chars_of(b);
    assert forall|j: int| 0 <= j < b.len() implies hex_decode(h)[j] == b[j] by {
        let x = b[j];
        lemma_hex_digit_round_trip((x / 16) as u8);
        lemma_hex_digit_round_trip((x % 16) as u8);
        assert(h[2 * j] == hex_char_of((x / 16) as u8));
        assert(h[2 * j + 1] == hex_char_of((x % 16) as u8));
        assert((x / 16) * 16 + x % 16 == x) by (nonlinear_arith);
    }
}

/// Every digit produced by the hex encoding is a lowercase hex digit.
pub proof fn lemma_hex_chars_of_valid(b: Seq<u8>)
    ensures
        hex_chars_of(b).len() == 2 * b.len(),
        forall|i: int| 0 <= i < 2 * b.len() ==> is_hex_digit(#[trigger] hex_chars_of(b)[i]),
        forall|i: int|
            0 <= i < 2 * b.len() ==> to_lower_hex(#[trigger] hex_chars_of(b)[i]) == hex_chars_of(
                b,
            )[i],
{
    assert forall|i: int| 0 <= i < 2 * b.len() implies is_hex_digit(#[trigger] hex_chars_of(b)[i])
        && to_lower_hex(hex_chars_of(b)[i]) == hex_chars_of(b)[i] by {
        let x = b[i / 2];
        lemma_hex_digit_round_trip((x / 16) as u8);
        lemma_hex_digit_round_trip((x % 16) as u8);
    }
}

/// Encoding decoded hex digits gives the digits back, lowercased.
pub proof fn lemma_hex_chars_of_hex_decode(t: Seq<char>)
    requires
        t.len() % 2 == 0,
        forall|i: int| 0 <= i < t.len() ==> is_hex_digit(t[i]),
    ensures
        hex_chars_of(hex_decode(t)) =~= t.map_values(|c: char| to_lower_hex(c)),
{
    let d = hex_decode(t);
    assert forall|i: int| 0 <= i < t.len() implies hex_chars_of(d)[i] == to_lower_hex(t[i]) by {
        let j = i / 2;
        let hi = hex_val(t[2 * j]);
        let lo = hex_val(t[2 * j + 1]);
        lemma_hex_val_bound(t[2 * j]);
        lemma_hex_val_bound(t[2 * j + 1]);
        assert(d[j] == (hi * 16 + lo) as u8);
        assert((hi * 16 + lo) / 16 == hi && (hi * 16 + lo) % 16 == lo) by (nonlinear_arith)
            requires
                hi < 16,
                lo < 16,
        ;
        if i % 2 == 0 {
            lemma_hex_char_of_hex_val(t[2 * j]);
        } else {
            lemma_hex_char_of_hex_val(t[2 * j + 1]);
        }
    }
}

/// Parsing a rendered value yields exactly the value's bytes: the text form
/// loses nothing.
pub proof fn lemma_parse_of_rendered_text(b: Seq<u8>)
    ensures
        parse_result(text_of(b), b.len()) == Ok::<Seq<u8>, FormatError>(b),
{
    let s = text_of(b);
    assert(strip_hex_prefix(s) =~= hex_chars_of(b));
    lemma_hex_chars_of_valid(b);
    lemma_hex_decode_of_hex_chars(b);
}

/// Rendering a parsed value gives the accepted input back: a `0x` prefix
/// followed by the input's digits, case-normalized to lowercase.
pub proof fn lemma_render_of_parsed_text(s: Seq<char>, n: nat, b: Seq<u8>)
    requires
        parse_result(s, n) == Ok::<Seq<u8>, FormatError>(b),
    ensures
        text_of(b) =~= seq!['0', 'x'] + strip_hex_prefix(s).map_values(|c: char| to_lower_hex(c)),
{
    let t = strip_hex_prefix(s);
    lemma_hex_chars_of_hex_decode(t);
}

/// A hex text whose digits decode to other than `n` bytes is rejected with
/// `WrongLength`, whatever its case and whether or not it has a `0x` prefix.
pub proof fn lemma_wrong_length_rejected(s: Seq<char>, n: nat)
    requires
        strip_hex_prefix(s).len() % 2 == 0,
        forall|i: int| 0 <= i < strip_hex_prefix(s).len() ==> is_hex_digit(strip_hex_prefix(s)[i]),
        strip_hex_prefix(s).len() / 2 != n,
    ensures
        parse_result(s, n) == Err::<Seq<u8>, FormatError>(FormatError::WrongLength),
{
}

/// A text with an odd digit count or a non-hex character is always rejected.
pub proof fn lemma_malformed_rejected(s: Seq<char>, n: nat)
    requires
        strip_hex_prefix(s).len() % 2 != 0 || exists|i: int|
            0 <= i < strip_hex_prefix(s).len() && !is_hex_digit(strip_hex_prefix(s)[i]),
    ensures
        parse_result(s, n) is Err,
        strip_hex_prefix(s).len() % 2 != 0 ==> parse_result(s, n) == Err::<Seq<u8>, FormatError>(
            FormatError::OddLength,
        ),
{
}

/// A non-hex character at index `j` of the stripped text makes parsing fail
/// with `InvalidChar`, once the digit count is known to be even.
proof fn lemma_parse_result_invalid_char(s: Seq<char>, n: nat, j: int)
    requires
        strip_hex_prefix(s).len() % 2 == 0,
        0 <= j < strip_hex_prefix(s).len(),
        !is_hex_digit(strip_hex_prefix(s)[j]),
    ensures
        parse_result(s, n) == Err::<Seq<u8>, FormatError>(FormatError::InvalidChar),
{
    let t = strip_hex_prefix(s);
    assert(exists|i: int| 0 <= i < t.len() && !is_hex_digit(t[i]));
}

/// Extending the bytes by one extends the hex digits by the byte's two
/// digits, high nibble first.
proof fn lemma_hex_chars_of_snoc(b: Seq<u8>, i: int)
    requires
        0 <= i < b.len(),
    ensures
        hex_chars_of(b.take(i + 1)) =~= hex_chars_of(b.take(i)) + seq![
            hex_char_of((b[i] / 16) as u8),
            hex_char_of((b[i] % 16) as u8),
        ],
{
    let lhs = hex_chars_of(b.take(i + 1));
    let rhs = hex_chars_of(b.take(i)) + seq![
        hex_char_of((b[i] / 16) as u8),
        hex_char_of((b[i] % 16) as u8),
    ];
    assert forall|j: int| 0 <= j < lhs.len() implies lhs[j] == rhs[j] by {
        assert(b.take(i + 1)[j / 2] == if j / 2 < i { b.take(i)[j / 2] } else { b[i] });
    }
}

} // verus!

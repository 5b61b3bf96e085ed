//! Character-level utilities shared by the manifest codec: the character
//! classes of the line grammar, uppercase hexadecimal encoding and decoding
//! of `u64` values, splitting text into lines, path normalization, and the
//! lexicographic order used to canonicalize record sequences.

use vstd::prelude::*;

verus! {

// ---------------------------------------------------------------------------
// Character classes
// ---------------------------------------------------------------------------
/// A character the line grammar accepts in an action tag: an ASCII letter,
/// digit or underscore, or any character beyond ASCII.  This covers every
/// Unicode word character, so a line whose tag holds such characters always
/// matches the record shape and an unknown tag is then a fatal error rather
/// than a skipped line.
pub open spec fn is_word_char(c: char) -> bool {
    (48 <= c as u32 <= 57) || (65 <= c as u32 <= 90) || (97 <= c as u32 <= 122) || c == '_' || c
        as u32 >= 128
}

/// A hexadecimal digit, either case.
pub open spec fn is_hex_char(c: char) -> bool {
    (48 <= c as u32 <= 57) || (65 <= c as u32 <= 70) || (97 <= c as u32 <= 102)
}

/// The numeric value of a hexadecimal digit (zero on other characters).
pub open spec fn hex_digit_val(c: char) -> nat {
    if 48 <= c as u32 <= 57 {
        (c as u32 - 48) as nat
    } else if 65 <= c as u32 <= 70 {
        (c as u32 - 55) as nat
    } else if 97 <= c as u32 <= 102 {
        (c as u32 - 87) as nat
    } else {
        0
    }
}

pub(crate) fn word_char(c: char) -> (r: bool)
    ensures
        r == is_word_char(c),
{
    let u = c as u32;
    (48 <= u && u <= 57) || (65 <= u && u <= 90) || (97 <= u && u <= 122) || c == '_' || u >= 128
}

pub(crate) fn hex_char(c: char) -> (r: bool)
    ensures
        r == is_hex_char(c),
{
    let u = c as u32;
    (48 <= u && u <= 57) || (65 <= u && u <= 70) || (97 <= u && u <= 102)
}

// ---------------------------------------------------------------------------
// Hexadecimal encoding of u64 values
// ---------------------------------------------------------------------------
/// The uppercase hexadecimal digit for a value below 16.
pub open spec fn hex_char_of(d: nat) -> char {
    if d == 0 {
        '0'
    } else if d == 1 {
        '1'
    } else if d == 2 {
        '2'
    } else if d == 3 {
        '3'
    } else if d == 4 {
        '4'
    } else if d == 5 {
        '5'
    } else if d == 6 {
        '6'
    } else if d == 7 {
        '7'
    } else if d == 8 {
        '8'
    } else if d == 9 {
        '9'
    } else if d == 10 {
        'A'
    } else if d == 11 {
        'B'
    } else if d == 12 {
        'C'
    } else if d == 13 {
        'D'
    } else if d == 14 {
        'E'
    } else {
        'F'
    }
}

/// The uppercase, no-leading-zero hexadecimal form of a value (`0` encodes
/// as `"0"`).
pub open spec fn hex_of(v: u64) -> Seq<char>
    decreases v,
{
    if v < 16 {
        seq![hex_char_of(v as nat)]
    } else {
        hex_of(v / 16) + seq![hex_char_of((v % 16) as nat)]
    }
}

/// The value of a string of hexadecimal digits, most significant first.
pub open spec fn hex_val(s: Seq<char>) -> nat
    decreases s.len(),
{
    if s.len() == 0 {
        0
    } else {
        hex_val(s.drop_last()) * 16 + hex_digit_val(s.last())
    }
}

/// Every character of `hex_of(v)` is an uppercase hexadecimal digit, hence
/// both a hex character and a word character, and never a delimiter.
pub proof fn lemma_hex_of_chars(v: u64)
    ensures
        hex_of(v).len() >= 1,
        forall|i: int|
            0 <= i < hex_of(v).len() ==> is_hex_char(#[trigger] hex_of(v)[i]) && hex_of(v)[i]
                != ':' && hex_of(v)[i] != ',' && hex_of(v)[i] != '\n' && hex_of(v)[i] != '\r',
    decreases v,
{
    if v < 16 {
    } else {
        lemma_hex_of_chars(v / 16);
    }
}

/// Decoding inverts encoding: the hexadecimal form of a value reads back as
/// that value.
pub proof fn lemma_hex_roundtrip(v: u64)
    ensures
        hex_val(hex_of(v)) == v,
    decreases v,
{
    if v < 16 {
        let s = hex_of(v);
        assert(s =~= seq![hex_char_of(v as nat)]);
        assert(s.last() == hex_char_of(v as nat));
        assert(s.drop_last() =~= Seq::<char>::empty());
        assert(hex_val(s.drop_last()) == 0);
        assert(hex_digit_val(hex_char_of(v as nat)) == v);
        assert(hex_val(s) == hex_val(s.drop_last()) * 16 + hex_digit_val(s.last()));
    } else {
        lemma_hex_roundtrip(v / 16);
        let s = hex_of(v);
        assert(s.drop_last() =~= hex_of(v / 16));
        assert(s.last() == hex_char_of((v % 16) as nat));
        assert(hex_val(s) == (v / 16) * 16 + (v % 16) as nat);
        assert(v == (v / 16) * 16 + v % 16) by {
            vstd::arithmetic::div_mod::lemma_fundamental_div_mod(v as int, 16);
        }
    }
}

/// The value of a prefix never exceeds the value of the whole string.
proof fn lemma_hex_val_prefix(s: Seq<char>, i: int)
    requires
        0 <= i <= s.len(),
    ensures
        hex_val(s.take(i)) <= hex_val(s),
    decreases s.len() - i,
{
    if i < s.len() {
        lemma_hex_val_prefix(s, i + 1);
        assert(s.take(i + 1).drop_last() =~= s.take(i));
        assert(hex_val(s.take(i + 1)) == hex_val(s.take(i)) * 16 + hex_digit_val(s.take(i + 1)[i]));
    } else {
        assert(s.take(i) =~= s);
    }
}

/// Parses a whole string of hexadecimal digits as a `u64`; `None` exactly
/// when the value does not fit in 64 bits.
pub fn parse_hex_u64(s: &str) -> (r: Option<u64>)
    requires
        forall|i: int| 0 <= i < s@.len() ==> is_hex_char(#[trigger] s@[i]),
    ensures
        r is Some <==> hex_val(s@) <= u64::MAX,
        r is Some ==> r->0 == hex_val(s@),
{
    let n = s.unicode_len();
    let mut val: u64 = 0;
    let mut i: usize = 0;
    while i < n
        invariant
            0 <= i <= n,
            n == s@.len(),
            forall|k: int| 0 <= k < s@.len() ==> is_hex_char(#[trigger] s@[k]),
            val == hex_val(s@.take(i as int)),
        decreases n - i,
    {
        let c = s.get_char(i);
        let u = c as u32;
        let d: u64 = if 48 <= u && u <= 57 {
            (u - 48) as u64
        } else if 65 <= u && u <= 70 {
            (u - 55) as u64
        } else {
            (u - 87) as u64
        };
        assert(d == hex_digit_val(s@[i as int]));
        if val >= 0x1000000000000000u64 {
            proof {
                assert(s@.take(i as int + 1).drop_last() =~= s@.take(i as int));
                assert(hex_val(s@.take(i as int + 1)) == val * 16 + hex_digit_val(s@[i as int]));
                lemma_hex_val_prefix(s@, i as int + 1);
            }
            return None;
        }
        proof {
            assert(s@.take(i as int + 1).drop_last() =~= s@.take(i as int));
        }
        val = val * 16 + d;
        i += 1;
    }
    proof {
        assert(s@.take(n as int) =~= s@);
    }
    Some(val)
}

/// The length of the maximal prefix of word characters.
pub open spec fn word_run(s: Seq<char>) -> int
    decreases s.len(),
{
    if s.len() > 0 && is_word_char(s[0]) {
        1 + word_run(s.drop_first())
    } else {
        0
    }
}

/// The length of the maximal prefix of hexadecimal characters.
pub open spec fn hex_run(s: Seq<char>) -> int
    decreases s.len(),
{
    if s.len() > 0 && is_hex_char(s[0]) {
        1 + hex_run(s.drop_first())
    } else {
        0
    }
}

/// `word_run` names the first index that breaks the run of word characters.
pub proof fn lemma_word_run(s: Seq<char>)
    ensures
        0 <= word_run(s) <= s.len(),
        forall|k: int| 0 <= k < word_run(s) ==> is_word_char(#[trigger] s[k]),
        word_run(s) < s.len() ==> !is_word_char(s[word_run(s)]),
    decreases s.len(),
{
    if s.len() > 0 && is_word_char(s[0]) {
        lemma_word_run(s.drop_first());
        assert forall|k: int| 0 <= k < word_run(s) implies is_word_char(#[trigger] s[k]) by {
            if k >= 1 {
                assert(s[k] == s.drop_first()[k - 1]);
            }
        }
    }
}

/// `hex_run` names the first index that breaks the run of hex characters.
pub proof fn lemma_hex_run(s: Seq<char>)
    ensures
        0 <= hex_run(s) <= s.len(),
        forall|k: int| 0 <= k < hex_run(s) ==> is_hex_char(#[trigger] s[k]),
        hex_run(s) < s.len() ==> !is_hex_char(s[hex_run(s)]),
    decreases s.len(),
{
    if s.len() > 0 && is_hex_char(s[0]) {
        lemma_hex_run(s.drop_first());
        assert forall|k: int| 0 <= k < hex_run(s) implies is_hex_char(#[trigger] s[k]) by {
            if k >= 1 {
                assert(s[k] == s.drop_first()[k - 1]);
            }
        }
    }
}

/// A run is determined by its bounding properties.
pub proof fn lemma_word_run_is(s: Seq<char>, w: int)
    requires
        0 <= w <= s.len(),
        forall|k: int| 0 <= k < w ==> is_word_char(#[trigger] s[k]),
        w < s.len() ==> !is_word_char(s[w]),
    ensures
        word_run(s) == w,
{
    lemma_word_run(s);
}

/// A run is determined by its bounding properties.
pub proof fn lemma_hex_run_is(s: Seq<char>, w: int)
    requires
        0 <= w <= s.len(),
        forall|k: int| 0 <= k < w ==> is_hex_char(#[trigger] s[k]),
        w < s.len() ==> !is_hex_char(s[w]),
    ensures
        hex_run(s) == w,
{
    lemma_hex_run(s);
}

// ---------------------------------------------------------------------------
// Lines
// ---------------------------------------------------------------------------
/// The index of the first newline, or the length when there is none.
pub open spec fn find_nl(s: Seq<char>) -> int
    decreases s.len(),
{
    if s.len() == 0 {
        0
    } else if s[0] == '\n' {
        0
    } else {
        1 + find_nl(s.drop_first())
    }
}

/// `find_nl` names the first newline.
pub proof fn lemma_find_nl(s: Seq<char>)
    ensures
        0 <= find_nl(s) <= s.len(),
        find_nl(s) < s.len() ==> s[find_nl(s)] == '\n',
        forall|k: int| 0 <= k < find_nl(s) ==> #[trigger] s[k] != '\n',
    decreases s.len(),
{
    if s.len() > 0 && s[0] != '\n' {
        lemma_find_nl(s.drop_first());
        assert forall|k: int| 0 <= k < find_nl(s) implies #[trigger] s[k] != '\n' by {
            if k >= 1 {
                assert(s[k] == s.drop_first()[k - 1]);
            }
        }
    }
}

/// The first newline is determined by its bounding properties.
pub proof fn lemma_find_nl_is(s: Seq<char>, i: int)
    requires
        0 <= i <= s.len(),
        forall|k: int| 0 <= k < i ==> #[trigger] s[k] != '\n',
        i < s.len() ==> s[i] == '\n',
    ensures
        find_nl(s) == i,
{
    lemma_find_nl(s);
}

/// Removes one trailing carriage return, as the standard line iterator does
/// for newline-terminated lines.
pub open spec fn strip_cr(s: Seq<char>) -> Seq<char> {
    if s.len() > 0 && s.last() == '\r' {
        s.drop_last()
    } else {
        s
    }
}

/// The lines of a text: split at `'\n'`, a trailing `"\r\n"` counted as a
/// terminator, no final empty line for newline-terminated text.
pub open spec fn lines_of(s: Seq<char>) -> Seq<Seq<char>>
    decreases s.len(),
{
    if s.len() == 0 {
        Seq::empty()
    } else {
        let i = find_nl(s);
        if 0 <= i < s.len() {
            seq![strip_cr(s.take(i))] + lines_of(s.skip(i + 1))
        } else {
            seq![s]
        }
    }
}

/// Splits a text into its lines.
pub fn split_lines(s: &str) -> (r: Vec<String>)
    ensures
        r@.map_values(|l: String| l@) == lines_of(s@),
{
    let n = s.unicode_len();
    let mut r: Vec<String> = Vec::new();
    let mut start: usize = 0;
    let mut i: usize = 0;
    proof {
        assert(s@.skip(0) =~= s@);
        assert(r@.map_values(|l: String| l@) =~= Seq::<Seq<char>>::empty());
        assert(Seq::<Seq<char>>::empty() + lines_of(s@) =~= lines_of(s@));
    }
    while i < n
        invariant
            0 <= start <= i <= n,
            n == s@.len(),
            forall|k: int| start <= k < i ==> #[trigger] s@[k] != '\n',
            lines_of(s@) == r@.map_values(|l: String| l@) + lines_of(s@.skip(start as int)),
        decreases n - i,
    {
        if s.get_char(i) == '\n' {
            let line: String = if i > start && s.get_char(i - 1) == '\r' {
                s.substring_char(start, i - 1).to_owned()
            } else {
                s.substring_char(start, i).to_owned()
            };
            proof {
                let tail = s@.skip(start as int);
                assert(forall|k: int|
                    0 <= k < i - start ==> tail[k] == #[trigger] s@[k + start]);
                lemma_find_nl_is(tail, i - start);
                assert(tail.take(i - start) =~= s@.subrange(start as int, i as int));
                assert(tail.skip(i - start + 1) =~= s@.skip(i as int + 1));
                assert(line@ == strip_cr(s@.subrange(start as int, i as int)));
                assert((r@ + seq![line]).map_values(|l: String| l@) =~= r@.map_values(
                    |l: String| l@,
                ) + seq![line@]);
                assert(lines_of(tail) == seq![strip_cr(tail.take(i - start))] + lines_of(
                    tail.skip(i - start + 1),
                ));
            }
            r.push(line);
            start = i + 1;
        }
        i += 1;
    }
    if start < n {
        let line = s.substring_char(start, n).to_owned();
        proof {
            let tail = s@.skip(start as int);
            assert(forall|k: int| 0 <= k < n - start ==> tail[k] == #[trigger] s@[k + start]);
            lemma_find_nl_is(tail, n - start);
            assert(tail.take(n - start) =~= tail);
            assert(line@ == tail);
            assert((r@ + seq![line]).map_values(|l: String| l@) =~= r@.map_values(|l: String| l@)
                + seq![line@]);
        }
        r.push(line);
    } else {
        proof {
            assert(s@.skip(start as int) =~= Seq::<char>::empty());
            assert(r@.map_values(|l: String| l@) + lines_of(Seq::<char>::empty()) =~= r@.map_values(
                |l: String| l@,
            ));
        }
    }
    r
}

// ---------------------------------------------------------------------------
// Path normalization
// ---------------------------------------------------------------------------
/// Every backslash replaced by a forward slash.
pub open spec fn normalize_chars(s: Seq<char>) -> Seq<char> {
    s.map_values(|c: char| if c == '\\' { '/' } else { c })
}

/// Replaces every backslash with a forward slash.
pub fn normalize_str(s: &str) -> (r: String)
    ensures
        r@ == normalize_chars(s@),
{
    let n = s.unicode_len();
    let mut out = String::new();
    let mut start: usize = 0;
    let mut i: usize = 0;
    while i < n
        invariant
            0 <= start <= i <= n,
            n == s@.len(),
            forall|k: int| start <= k < i ==> #[trigger] s@[k] != '\\',
            out@ == normalize_chars(s@.take(start as int)),
        decreases n - i,
    {
        if s.get_char(i) == '\\' {
            out.append(s.substring_char(start, i));
            proof {
                assert(out@ =~= normalize_chars(s@.take(i as int)));
                reveal_strlit("/");
            }
            out.append("/");
            proof {
                assert(out@ =~= normalize_chars(s@.take(i as int + 1)));
            }
            start = i + 1;
        }
        i += 1;
    }
    out.append(s.substring_char(start, n));
    proof {
        assert(out@ =~= normalize_chars(s@));
    }
    out
}

// ---------------------------------------------------------------------------
// Lexicographic order on character sequences
// ---------------------------------------------------------------------------
/// Lexicographic order by scalar value; the canonical order of manifest
/// records.
pub open spec fn lex_le(a: Seq<char>, b: Seq<char>) -> bool
    decreases a.len(),
{
    if a.len() == 0 {
        true
    } else if b.len() == 0 {
        false
    } else if (a[0] as u32) < (b[0] as u32) {
        true
    } else if (b[0] as u32) < (a[0] as u32) {
        false
    } else {
        lex_le(a.drop_first(), b.drop_first())
    }
}

/// The order relates every pair, one way or the other.
pub proof fn lemma_lex_le_total(a: Seq<char>, b: Seq<char>)
    ensures
        lex_le(a, b) || lex_le(b, a),
    decreases a.len(),
{
    if a.len() > 0 && b.len() > 0 && a[0] as u32 == b[0] as u32 {
        lemma_lex_le_total(a.drop_first(), b.drop_first());
    }
}

/// The order is transitive.
pub proof fn lemma_lex_le_trans(a: Seq<char>, b: Seq<char>, c: Seq<char>)
    requires
        lex_le(a, b),
        lex_le(b, c),
    ensures
        lex_le(a, c),
    decreases a.len(),
{
    if a.len() > 0 && b.len() > 0 && c.len() > 0 && a[0] as u32 == b[0] as u32 && b[0] as u32
        == c[0] as u32 {
        lemma_lex_le_trans(a.drop_first(), b.drop_first(), c.drop_first());
    }
}

/// Compares two strings in the lexicographic order.
pub fn str_lex_le(a: &str, b: &str) -> (r: bool)
    ensures
        r == lex_le(a@, b@),
{
    let na = a.unicode_len();
    let nb = b.unicode_len();
    let mut i: usize = 0;
    proof {
        assert(a@.skip(0) =~= a@);
        assert(b@.skip(0) =~= b@);
    }
    loop
        invariant
            0 <= i,
            i <= na,
            i <= nb,
            na == a@.len(),
            nb == b@.len(),
            lex_le(a@, b@) == lex_le(a@.skip(i as int), b@.skip(i as int)),
        decreases na - i,
    {
        if i == na {
            assert(a@.skip(i as int) =~= Seq::<char>::empty());
            return true;
        }
        if i == nb {
            assert(b@.skip(i as int) =~= Seq::<char>::empty());
            assert(a@.skip(i as int).len() > 0);
            return false;
        }
        let ca = a.get_char(i) as u32;
        let cb = b.get_char(i) as u32;
        assert(a@.skip(i as int)[0] == a@[i as int]);
        assert(b@.skip(i as int)[0] == b@[i as int]);
        if ca < cb {
            return true;
        }
        if cb < ca {
            return false;
        }
        assert(a@.skip(i as int).drop_first() =~= a@.skip(i as int + 1));
        assert(b@.skip(i as int).drop_first() =~= b@.skip(i as int + 1));
        i += 1;
    }
}

/// The one-character string holding the uppercase hexadecimal digit `d`.
fn hex_char_str(d: u64) -> (r: &'static str)
    requires
        d < 16,
    ensures
        r@ =~= seq![hex_char_of(d as nat)],
{
    proof {
        reveal_strlit("0");
        reveal_strlit("1");
        reveal_strlit("2");
        reveal_strlit("3");
        reveal_strlit("4");
        reveal_strlit("5");
        reveal_strlit("6");
        reveal_strlit("7");
        reveal_strlit("8");
        reveal_strlit("9");
        reveal_strlit("A");
        reveal_strlit("B");
        reveal_strlit("C");
        reveal_strlit("D");
        reveal_strlit("E");
        reveal_strlit("F");
    }
    if d == 0 {
        "0"
    } else if d == 1 {
        "1"
    } else if d == 2 {
        "2"
    } else if d == 3 {
        "3"
    } else if d == 4 {
        "4"
    } else if d == 5 {
        "5"
    } else if d == 6 {
        "6"
    } else if d == 7 {
        "7"
    } else if d == 8 {
        "8"
    } else if d == 9 {
        "9"
    } else if d == 10 {
        "A"
    } else if d == 11 {
        "B"
    } else if d == 12 {
        "C"
    } else if d == 13 {
        "D"
    } else if d == 14 {
        "E"
    } else {
        "F"
    }
}

/// Renders a value in uppercase hexadecimal without leading zeros.
pub fn to_hex(v: u64) -> (r: String)
    ensures
        r@ == hex_of(v),
    decreases v,
{
    if v < 16 {
        let s = String::from_str(hex_char_str(v));
        assert(s@ =~= hex_of(v));
        s
    } else {
        let mut s = to_hex(v / 16);
        s.append(hex_char_str(v % 16));
        assert(s@ =~= hex_of(v));
        s
    }
}

} // verus!

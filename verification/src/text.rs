//! Character-level text utilities: whitespace classification, line
//! splitting, and decimal rendering of integers.

use vstd::prelude::*;
use vstd::string::StrSliceExecFns;
use vstd::string::StringExecFns;

verus! {

/// A whitespace character, as the matcher understands it: the Unicode
/// `White_Space` set.
pub open spec fn is_space(c: char) -> bool {
    ||| (9 <= c as u32 && c as u32 <= 13)
    ||| c == ' '
    ||| c as u32 == 0x85
    ||| c as u32 == 0xa0
    ||| c as u32 == 0x1680
    ||| (0x2000 <= c as u32 && c as u32 <= 0x200a)
    ||| c as u32 == 0x2028
    ||| c as u32 == 0x2029
    ||| c as u32 == 0x202f
    ||| c as u32 == 0x205f
    ||| c as u32 == 0x3000
}

/// Decides `is_space` for one character.
pub fn is_space_char(c: char) -> (r: bool)
    ensures
        r == is_space(c),
{
    let n = c as u32;
    (9 <= n && n <= 13) || n == 0x20 || n == 0x85 || n == 0xa0 || n == 0x1680 || (0x2000 <= n && n
        <= 0x200a) || n == 0x2028 || n == 0x2029 || n == 0x202f || n == 0x205f || n == 0x3000
}

/// First index at or after `i` that holds a non-whitespace character, or
/// the length of `s` if there is none.
pub open spec fn skip_ws(s: Seq<char>, i: int) -> int
    decreases s.len() - i,
{
    if i < 0 || i >= s.len() {
        s.len() as int
    } else if is_space(s[i]) {
        skip_ws(s, i + 1)
    } else {
        i
    }
}

pub proof fn lemma_skip_ws(s: Seq<char>, i: int)
    requires
        0 <= i <= s.len(),
    ensures
        i <= skip_ws(s, i) <= s.len(),
        forall|k: int| i <= k < skip_ws(s, i) ==> is_space(s[k]),
        skip_ws(s, i) < s.len() ==> !is_space(s[skip_ws(s, i)]),
    decreases s.len() - i,
{
    if i < s.len() && is_space(s[i]) {
        lemma_skip_ws(s, i + 1);
    }
}

/// A scan that saw only whitespace in `[i, j)` and a non-whitespace
/// character (or the end) at `j` has found `skip_ws(s, i)`.
pub proof fn lemma_skip_ws_at(s: Seq<char>, i: int, j: int)
    requires
        0 <= i <= j <= s.len(),
        forall|k: int| i <= k < j ==> is_space(s[k]),
        j < s.len() ==> !is_space(s[j]),
    ensures
        skip_ws(s, i) == j,
    decreases j - i,
{
    if i < j {
        lemma_skip_ws_at(s, i + 1, j);
    }
}

/// First index at or after `i` that holds a newline, or the length of `s`
/// if there is none.
pub open spec fn find_nl(s: Seq<char>, i: int) -> int
    decreases s.len() - i,
{
    if i < 0 || i >= s.len() {
        s.len() as int
    } else if s[i] == '\n' {
        i
    } else {
        find_nl(s, i + 1)
    }
}

pub proof fn lemma_find_nl_at(s: Seq<char>, i: int, j: int)
    requires
        0 <= i <= j <= s.len(),
        forall|k: int| i <= k < j ==> s[k] != '\n',
        j < s.len() ==> s[j] == '\n',
    ensures
        find_nl(s, i) == j,
    decreases j - i,
{
    if i < j {
        lemma_find_nl_at(s, i + 1, j);
    }
}

/// One trailing carriage return removed: the remnant of a `\r\n` line
/// terminator once the `\n` is gone.
pub open spec fn chop_cr(t: Seq<char>) -> Seq<char> {
    if t.len() > 0 && t[t.len() - 1] == '\r' {
        t.drop_last()
    } else {
        t
    }
}

/// The lines of `s`, split as Rust's `str::lines` splits: terminators are
/// `\n` or `\r\n`, and a final terminator opens no further line.
pub open spec fn spec_lines(s: Seq<char>) -> Seq<Seq<char>>
    decreases s.len(),
{
    if s.len() == 0 {
        Seq::empty()
    } else {
        let j = find_nl(s, 0);
        if 0 <= j && j < s.len() {
            seq![chop_cr(s.subrange(0, j))] + spec_lines(s.subrange(j + 1, s.len() as int))
        } else {
            seq![s]
        }
    }
}

/// Splits `s` into its lines.
pub fn split_lines(s: &str) -> (r: Vec<String>)
    ensures
        r@.len() == spec_lines(s@).len(),
        forall|k: int| 0 <= k < r@.len() ==> r@[k]@ == spec_lines(s@)[k],
{
    let n = s.unicode_len();
    let mut r: Vec<String> = Vec::new();
    let mut start: usize = 0;
    let mut pos: usize = 0;
    proof {
        assert(r@.map_values(|l: String| l@) + spec_lines(s@.subrange(0, s@.len() as int))
            =~= spec_lines(s@)) by {
            assert(s@.subrange(0, s@.len() as int) =~= s@);
        }
    }
    while pos < n
        invariant
            s@.len() == n,
            0 <= start <= pos <= n,
            forall|k: int| start <= k < pos ==> s@[k] != '\n',
            r@.map_values(|l: String| l@) + spec_lines(s@.subrange(start as int, n as int))
                == spec_lines(s@),
        decreases n - pos,
    {
        let c = s.get_char(pos);
        if c == '\n' {
            let line_end = if pos > start && s.get_char(pos - 1) == '\r' {
                pos - 1
            } else {
                pos
            };
            let line = s.substring_char(start, line_end);
            let ghost old_r = r@;
            r.push(String::from_str(line));
            proof {
                let tail = s@.subrange(start as int, n as int);
                lemma_find_nl_at(tail, 0, pos - start as int);
                assert(tail.subrange(0, pos - start as int) =~= s@.subrange(
                    start as int,
                    pos as int,
                ));
                assert(tail.subrange(pos - start + 1, tail.len() as int) =~= s@.subrange(
                    pos + 1,
                    n as int,
                ));
                assert(line@ =~= chop_cr(s@.subrange(start as int, pos as int)));
                assert(r@.map_values(|l: String| l@) =~= old_r.map_values(|l: String| l@)
                    + seq![line@]);
                assert(r@.map_values(|l: String| l@) + spec_lines(s@.subrange(pos + 1, n as int))
                    =~= spec_lines(s@));
            }
            pos = pos + 1;
            start = pos;
        } else {
            pos = pos + 1;
        }
    }
    if start < n {
        let line = s.substring_char(start, n);
        let ghost old_r = r@;
        r.push(String::from_str(line));
        proof {
            let tail = s@.subrange(start as int, n as int);
            lemma_find_nl_at(tail, 0, tail.len() as int);
            assert(line@ =~= tail);
            assert(r@.map_values(|l: String| l@) =~= old_r.map_values(|l: String| l@)
                + seq![line@]);
            assert(r@.map_values(|l: String| l@) + spec_lines(s@.subrange(n as int, n as int))
                =~= spec_lines(s@)) by {
                assert(spec_lines(s@.subrange(n as int, n as int)) =~= Seq::<Seq<char>>::empty());
            }
        }
    } else {
        proof {
            assert(spec_lines(s@.subrange(start as int, n as int)) =~= Seq::<Seq<char>>::empty());
        }
    }
    proof {
        assert(r@.map_values(|l: String| l@) =~= spec_lines(s@));
        assert(forall|k: int|
            0 <= k < r@.len() ==> r@[k]@ == r@.map_values(|l: String| l@)[k]);
    }
    r
}

/// The decimal digit `d` as a character.
pub open spec fn digit_char(d: int) -> char {
    if d == 0 {
        '0'
    } else if d == 1 {
        '1'
    } else if d == 2 {
        '2'
    } else if d == 3 {
        '3'
    } else if d == 4 {
        '4'
    } else if d == 5 {
        '5'
    } else if d == 6 {
        '6'
    } else if d == 7 {
        '7'
    } else if d == 8 {
        '8'
    } else {
        '9'
    }
}

/// The decimal rendering of `n`, most significant digit first.
pub open spec fn dec_of(n: nat) -> Seq<char>
    decreases n,
{
    if n < 10 {
        seq![digit_char(n as int)]
    } else {
        dec_of(n / 10) + seq![digit_char((n % 10) as int)]
    }
}

fn digit_str(d: u64) -> (r: &'static str)
    requires
        d < 10,
    ensures
        r@ == seq![digit_char(d as int)],
{
    proof {
        reveal_strlit("0");
        reveal_strlit("1");
        reveal_strlit("2");
        reveal_strlit("3");
        reveal_strlit("4");
        reveal_strlit("5");
        reveal_strlit("6");
        reveal_strlit("7");
        reveal_strlit("8");
        reveal_strlit("9");
    }
    let r = if d == 0 {
        "0"
    } else if d == 1 {
        "1"
    } else if d == 2 {
        "2"
    } else if d == 3 {
        "3"
    } else if d == 4 {
        "4"
    } else if d == 5 {
        "5"
    } else if d == 6 {
        "6"
    } else if d == 7 {
        "7"
    } else if d == 8 {
        "8"
    } else {
        "9"
    };
    proof {
        assert(r@ =~= seq![digit_char(d as int)]);
    }
    r
}

/// Renders `n` in decimal.
pub fn u64_to_string(n: u64) -> (r: String)
    ensures
        r@ == dec_of(n as nat),
    decreases n,
{
    if n < 10 {
        String::from_str(digit_str(n))
    } else {
        let mut s = u64_to_string(n / 10);
        s.append(digit_str(n % 10));
        proof {
            assert(s@ =~= dec_of(n as nat));
        }
        s
    }
}

/// A decimal digit.
pub open spec fn is_digit(c: char) -> bool {
    48 <= c as u32 && c as u32 <= 57
}

/// Decides `is_digit` for one character.
pub fn is_digit_char(c: char) -> (r: bool)
    ensures
        r == is_digit(c),
{
    let n = c as u32;
    48 <= n && n <= 57
}

/// First index at or after `i` that holds a non-digit character, or the
/// length of `s` if there is none.
pub open spec fn skip_digits(s: Seq<char>, i: int) -> int
    decreases s.len() - i,
{
    if i < 0 || i >= s.len() {
        s.len() as int
    } else if is_digit(s[i]) {
        skip_digits(s, i + 1)
    } else {
        i
    }
}

/// A scan that saw only digits in `[i, j)` and a non-digit character (or
/// the end) at `j` has found `skip_digits(s, i)`.
pub proof fn lemma_skip_digits_at(s: Seq<char>, i: int, j: int)
    requires
        0 <= i <= j <= s.len(),
        forall|k: int| i <= k < j ==> is_digit(s[k]),
        j < s.len() ==> !is_digit(s[j]),
    ensures
        skip_digits(s, i) == j,
    decreases j - i,
{
    if i < j {
        lemma_skip_digits_at(s, i + 1, j);
    }
}

/// The end of the digit run that starts at `from`.
pub fn digit_run_end(s: &str, n: usize, from: usize) -> (r: usize)
    requires
        s@.len() == n,
        from <= n,
    ensures
        r == skip_digits(s@, from as int),
        from <= r <= n,
{
    let mut j = from;
    while j < n && is_digit_char(s.get_char(j))
        invariant
            s@.len() == n,
            from <= j <= n,
            forall|k: int| from <= k < j ==> is_digit(s@[k]),
        decreases n - j,
    {
        j = j + 1;
    }
    proof {
        lemma_skip_digits_at(s@, from as int, j as int);
    }
    j
}

/// One character ASCII-lowercased: the twenty-six upper-case letters map
/// to their lower-case forms, everything else stays.
pub open spec fn lower_char(c: char) -> char {
    if c == 'A' {
        'a'
    } else if c == 'B' {
        'b'
    } else if c == 'C' {
        'c'
    } else if c == 'D' {
        'd'
    } else if c == 'E' {
        'e'
    } else if c == 'F' {
        'f'
    } else if c == 'G' {
        'g'
    } else if c == 'H' {
        'h'
    } else if c == 'I' {
        'i'
    } else if c == 'J' {
        'j'
    } else if c == 'K' {
        'k'
    } else if c == 'L' {
        'l'
    } else if c == 'M' {
        'm'
    } else if c == 'N' {
        'n'
    } else if c == 'O' {
        'o'
    } else if c == 'P' {
        'p'
    } else if c == 'Q' {
        'q'
    } else if c == 'R' {
        'r'
    } else if c == 'S' {
        's'
    } else if c == 'T' {
        't'
    } else if c == 'U' {
        'u'
    } else if c == 'V' {
        'v'
    } else if c == 'W' {
        'w'
    } else if c == 'X' {
        'x'
    } else if c == 'Y' {
        'y'
    } else if c == 'Z' {
        'z'
    } else {
        c
    }
}

/// A string ASCII-lowercased, character by character.
pub open spec fn lower_seq(s: Seq<char>) -> Seq<char> {
    s.map_values(|c: char| lower_char(c))
}

/// The single-character piece to append for position `i`: a lower-case
/// literal for an upper-case ASCII letter, the character itself otherwise.
fn lower_piece<'a>(s: &'a str, i: usize, c: char) -> (r: &'a str)
    requires
        i < s@.len() <= usize::MAX,
        s@[i as int] == c,
    ensures
        r@ == seq![lower_char(c)],
{
    if c == 'A' {
        proof {
            reveal_strlit("a");
            assert("a"@ =~= seq![lower_char(c)]);
        }
        return "a";
    }
    if c == 'B' {
        proof {
            reveal_strlit("b");
            assert("b"@ =~= seq![lower_char(c)]);
        }
        return "b";
    }
    if c == 'C' {
        proof {
            reveal_strlit("c");
            assert("c"@ =~= seq![lower_char(c)]);
        }
        return "c";
    }
    if c == 'D' {
        proof {
            reveal_strlit("d");
            assert("d"@ =~= seq![lower_char(c)]);
        }
        return "d";
    }
    if c == 'E' {
        proof {
            reveal_strlit("e");
            assert("e"@ =~= seq![lower_char(c)]);
        }
        return "e";
    }
    if c == 'F' {
        proof {
            reveal_strlit("f");
            assert("f"@ =~= seq![lower_char(c)]);
        }
        return "f";
    }
    if c == 'G' {
        proof {
            reveal_strlit("g");
            assert("g"@ =~= seq![lower_char(c)]);
        }
        return "g";
    }
    if c == 'H' {
        proof {
            reveal_strlit("h");
            assert("h"@ =~= seq![lower_char(c)]);
        }
        return "h";
    }
    if c == 'I' {
        proof {
            reveal_strlit("i");
            assert("i"@ =~= seq![lower_char(c)]);
        }
        return "i";
    }
    if c == 'J' {
        proof {
            reveal_strlit("j");
            assert("j"@ =~= seq![lower_char(c)]);
        }
        return "j";
    }
    if c == 'K' {
        proof {
            reveal_strlit("k");
            assert("k"@ =~= seq![lower_char(c)]);
        }
        return "k";
    }
    if c == 'L' {
        proof {
            reveal_strlit("l");
            assert("l"@ =~= seq![lower_char(c)]);
        }
        return "l";
    }
    if c == 'M' {
        proof {
            reveal_strlit("m");
            assert("m"@ =~= seq![lower_char(c)]);
        }
        return "m";
    }
    if c == 'N' {
        proof {
            reveal_strlit("n");
            assert("n"@ =~= seq![lower_char(c)]);
        }
        return "n";
    }
    if c == 'O' {
        proof {
            reveal_strlit("o");
            assert("o"@ =~= seq![lower_char(c)]);
        }
        return "o";
    }
    if c == 'P' {
        proof {
            reveal_strlit("p");
            assert("p"@ =~= seq![lower_char(c)]);
        }
        return "p";
    }
    if c == 'Q' {
        proof {
            reveal_strlit("q");
            assert("q"@ =~= seq![lower_char(c)]);
        }
        return "q";
    }
    if c == 'R' {
        proof {
            reveal_strlit("r");
            assert("r"@ =~= seq![lower_char(c)]);
        }
        return "r";
    }
    if c == 'S' {
        proof {
            reveal_strlit("s");
            assert("s"@ =~= seq![lower_char(c)]);
        }
        return "s";
    }
    if c == 'T' {
        proof {
            reveal_strlit("t");
            assert("t"@ =~= seq![lower_char(c)]);
        }
        return "t";
    }
    if c == 'U' {
        proof {
            reveal_strlit("u");
            assert("u"@ =~= seq![lower_char(c)]);
        }
        return "u";
    }
    if c == 'V' {
        proof {
            reveal_strlit("v");
            assert("v"@ =~= seq![lower_char(c)]);
        }
        return "v";
    }
    if c == 'W' {
        proof {
            reveal_strlit("w");
            assert("w"@ =~= seq![lower_char(c)]);
        }
        return "w";
    }
    if c == 'X' {
        proof {
            reveal_strlit("x");
            assert("x"@ =~= seq![lower_char(c)]);
        }
        return "x";
    }
    if c == 'Y' {
        proof {
            reveal_strlit("y");
            assert("y"@ =~= seq![lower_char(c)]);
        }
        return "y";
    }
    if c == 'Z' {
        proof {
            reveal_strlit("z");
            assert("z"@ =~= seq![lower_char(c)]);
        }
        return "z";
    }
    let r = s.substring_char(i, i + 1);
    proof {
        assert(r@ =~= seq![lower_char(c)]);
    }
    r
}

/// ASCII-lowercases a string.
pub fn to_lowercase_ascii(s: &str) -> (r: String)
    ensures
        r@ == lower_seq(s@),
{
    let n = s.unicode_len();
    let mut r = String::new();
    let mut i: usize = 0;
    while i < n
        invariant
            s@.len() == n,
            0 <= i <= n,
            r@.len() == i,
            forall|k: int| 0 <= k < i ==> r@[k] == lower_char(s@[k]),
        decreases n - i,
    {
        let c = s.get_char(i);
        let piece: &str = lower_piece(s, i, c);
        r.append(piece);
        i = i + 1;
    }
    proof {
        assert(r@ =~= lower_seq(s@));
    }
    r
}

/// `offset + k`, capped at `u64::MAX`.
pub open spec fn sat_add(offset: u64, k: int) -> u64 {
    if offset + k > u64::MAX {
        u64::MAX
    } else {
        (offset + k) as u64
    }
}

/// Adds a line index to a starting line number, capping at `u64::MAX`.
pub fn saturating_add_u64(offset: u64, k: u64) -> (r: u64)
    ensures
        r == sat_add(offset, k as int),
{
    if k <= u64::MAX - offset {
        offset + k
    } else {
        u64::MAX
    }
}

} // verus!

//! Character-level text utilities: classification of ASCII whitespace and
//! digits, maximal-run scanning, trimming, unsigned decimal parsing, and
//! splitting raw command output into lines.

use vstd::prelude::*;

verus! {

/// ASCII whitespace, the delimiter class of the plain-text process listing.
pub open spec fn is_wspace(c: char) -> bool {
    c == ' ' || c == '\t' || c == '\n' || c == '\r' || c == '\x0b' || c == '\x0c'
}

/// ASCII decimal digit.
pub open spec fn is_digit(c: char) -> bool {
    '0' <= c && c <= '9'
}

/// ASCII letter.
pub open spec fn is_alpha(c: char) -> bool {
    ('a' <= c && c <= 'z') || ('A' <= c && c <= 'Z')
}

pub fn wspace_char(c: char) -> (b: bool)
    ensures
        b == is_wspace(c),
{
    c == ' ' || c == '\t' || c == '\n' || c == '\r' || c == '\x0b' || c == '\x0c'
}

pub fn digit_char(c: char) -> (b: bool)
    ensures
        b == is_digit(c),
{
    '0' <= c && c <= '9'
}

pub fn alpha_char(c: char) -> (b: bool)
    ensures
        b == is_alpha(c),
{
    ('a' <= c && c <= 'z') || ('A' <= c && c <= 'Z')
}

/// End of the maximal run of whitespace starting at `i`.
pub open spec fn wspace_end(s: Seq<char>, i: int) -> int
    decreases s.len() - i,
{
    if i < 0 || i >= s.len() {
        i
    } else if is_wspace(s[i]) {
        wspace_end(s, i + 1)
    } else {
        i
    }
}

/// End of the maximal run of non-whitespace starting at `i`.
pub open spec fn nonspace_end(s: Seq<char>, i: int) -> int
    decreases s.len() - i,
{
    if i < 0 || i >= s.len() {
        i
    } else if !is_wspace(s[i]) {
        nonspace_end(s, i + 1)
    } else {
        i
    }
}

/// End of the maximal run of decimal digits starting at `i`.
pub open spec fn digit_end(s: Seq<char>, i: int) -> int
    decreases s.len() - i,
{
    if i < 0 || i >= s.len() {
        i
    } else if is_digit(s[i]) {
        digit_end(s, i + 1)
    } else {
        i
    }
}

/// Index of the first line feed at or after `i`, or the length if none.
pub open spec fn line_break(s: Seq<char>, i: int) -> int
    decreases s.len() - i,
{
    if i < 0 || i >= s.len() {
        i
    } else if s[i] == '\n' {
        i
    } else {
        line_break(s, i + 1)
    }
}

pub proof fn lemma_wspace_end(s: Seq<char>, i: int)
    requires
        0 <= i <= s.len(),
    ensures
        i <= wspace_end(s, i) <= s.len(),
        forall|j: int| i <= j < wspace_end(s, i) ==> is_wspace(s[j]),
        wspace_end(s, i) < s.len() ==> !is_wspace(s[wspace_end(s, i)]),
    decreases s.len() - i,
{
    if i < s.len() && is_wspace(s[i]) {
        lemma_wspace_end(s, i + 1);
    }
}

pub proof fn lemma_nonspace_end(s: Seq<char>, i: int)
    requires
        0 <= i <= s.len(),
    ensures
        i <= nonspace_end(s, i) <= s.len(),
        forall|j: int| i <= j < nonspace_end(s, i) ==> !is_wspace(s[j]),
        nonspace_end(s, i) < s.len() ==> is_wspace(s[nonspace_end(s, i)]),
    decreases s.len() - i,
{
    if i < s.len() && !is_wspace(s[i]) {
        lemma_nonspace_end(s, i + 1);
    }
}

pub proof fn lemma_digit_end(s: Seq<char>, i: int)
    requires
        0 <= i <= s.len(),
    ensures
        i <= digit_end(s, i) <= s.len(),
        forall|j: int| i <= j < digit_end(s, i) ==> is_digit(s[j]),
        digit_end(s, i) < s.len() ==> !is_digit(s[digit_end(s, i)]),
    decreases s.len() - i,
{
    if i < s.len() && is_digit(s[i]) {
        lemma_digit_end(s, i + 1);
    }
}

pub proof fn lemma_line_break(s: Seq<char>, i: int)
    requires
        0 <= i <= s.len(),
    ensures
        i <= line_break(s, i) <= s.len(),
        forall|j: int| i <= j < line_break(s, i) ==> s[j] != '\n',
        line_break(s, i) < s.len() ==> s[line_break(s, i)] == '\n',
    decreases s.len() - i,
{
    if i < s.len() && s[i] != '\n' {
        lemma_line_break(s, i + 1);
    }
}

/// Scans past the whitespace run beginning at `from`.
pub fn skip_wspace(s: &str, from: usize) -> (r: usize)
    requires
        from <= s@.len(),
    ensures
        r == wspace_end(s@, from as int),
        from <= r <= s@.len(),
{
    let n = s.unicode_len();
    let mut i = from;
    while i < n && wspace_char(s.get_char(i))
        invariant
            from <= i <= n,
            n == s@.len(),
            wspace_end(s@, from as int) == wspace_end(s@, i as int),
        decreases n - i,
    {
        i = i + 1;
    }
    proof {
        lemma_wspace_end(s@, from as int);
    }
    i
}

/// Scans past the non-whitespace run beginning at `from`.
pub fn skip_nonspace(s: &str, from: usize) -> (r: usize)
    requires
        from <= s@.len(),
    ensures
        r == nonspace_end(s@, from as int),
        from <= r <= s@.len(),
{
    let n = s.unicode_len();
    let mut i = from;
    while i < n && !wspace_char(s.get_char(i))
        invariant
            from <= i <= n,
            n == s@.len(),
            nonspace_end(s@, from as int) == nonspace_end(s@, i as int),
        decreases n - i,
    {
        i = i + 1;
    }
    proof {
        lemma_nonspace_end(s@, from as int);
    }
    i
}

/// Scans past the digit run beginning at `from`.
pub fn skip_digits(s: &str, from: usize) -> (r: usize)
    requires
        from <= s@.len(),
    ensures
        r == digit_end(s@, from as int),
        from <= r <= s@.len(),
{
    let n = s.unicode_len();
    let mut i = from;
    while i < n && digit_char(s.get_char(i))
        invariant
            from <= i <= n,
            n == s@.len(),
            digit_end(s@, from as int) == digit_end(s@, i as int),
        decreases n - i,
    {
        i = i + 1;
    }
    proof {
        lemma_digit_end(s@, from as int);
    }
    i
}

/// Scans to the first line feed at or after `from`.
pub fn find_line_break(s: &str, from: usize) -> (r: usize)
    requires
        from <= s@.len(),
    ensures
        r == line_break(s@, from as int),
        from <= r <= s@.len(),
{
    let n = s.unicode_len();
    let mut i = from;
    while i < n && s.get_char(i) != '\n'
        invariant
            from <= i <= n,
            n == s@.len(),
            line_break(s@, from as int) == line_break(s@, i as int),
        decreases n - i,
    {
        i = i + 1;
    }
    proof {
        lemma_line_break(s@, from as int);
    }
    i
}

/// Start of the maximal run of trailing whitespace ending at `i` (exclusive).
pub open spec fn trailing_wspace_start(s: Seq<char>, i: int) -> int
    decreases i,
{
    if i <= 0 || i > s.len() {
        i
    } else if is_wspace(s[i - 1]) {
        trailing_wspace_start(s, i - 1)
    } else {
        i
    }
}

pub proof fn lemma_trailing_wspace_start(s: Seq<char>, i: int)
    requires
        0 <= i <= s.len(),
    ensures
        0 <= trailing_wspace_start(s, i) <= i,
        forall|j: int| trailing_wspace_start(s, i) <= j < i ==> is_wspace(s[j]),
        trailing_wspace_start(s, i) > 0 ==> !is_wspace(s[trailing_wspace_start(s, i) - 1]),
    decreases i,
{
    if i > 0 && is_wspace(s[i - 1]) {
        lemma_trailing_wspace_start(s, i - 1);
    }
}

/// The sequence with leading and trailing whitespace removed.
pub open spec fn trim_spec(s: Seq<char>) -> Seq<char> {
    let a = wspace_end(s, 0);
    let b = trailing_wspace_start(s, s.len() as int);
    if a <= b {
        s.subrange(a, b)
    } else {
        Seq::empty()
    }
}

/// Copies `s` with leading and trailing whitespace removed.
pub fn trim(s: &str) -> (r: String)
    ensures
        r@ == trim_spec(s@),
{
    let n = s.unicode_len();
    let a = skip_wspace(s, 0);
    let mut b = n;
    while b > 0 && wspace_char(s.get_char(b - 1))
        invariant
            0 <= b <= n,
            n == s@.len(),
            trailing_wspace_start(s@, n as int) == trailing_wspace_start(s@, b as int),
        decreases b,
    {
        b = b - 1;
    }
    proof {
        lemma_wspace_end(s@, 0);
        lemma_trailing_wspace_start(s@, n as int);
    }
    if a <= b {
        s.substring_char(a, b).to_owned()
    } else {
        proof {
            assert(trim_spec(s@) =~= Seq::<char>::empty());
        }
        String::new()
    }
}

/// Value of a digit character.
pub open spec fn digit_of(c: char) -> int {
    c as int - 48
}

/// Value of a sequence of decimal digits, most significant first.
pub open spec fn digits_val(s: Seq<char>) -> int
    decreases s.len(),
{
    if s.len() == 0 {
        0
    } else {
        digits_val(s.drop_last()) * 10 + digit_of(s.last())
    }
}

pub proof fn lemma_digits_val_bounds(s: Seq<char>)
    requires
        forall|j: int| 0 <= j < s.len() ==> is_digit(s[j]),
    ensures
        digits_val(s) >= 0,
        s.len() > 0 ==> digits_val(s) >= digits_val(s.drop_last()),
    decreases s.len(),
{
    if s.len() > 0 {
        lemma_digits_val_bounds(s.drop_last());
    }
}

/// The pid read from a run of digits: its value, or zero when the value
/// does not fit in 32 bits.
pub open spec fn pid_of_digits(d: Seq<char>) -> u32 {
    if digits_val(d) <= u32::MAX {
        digits_val(d) as u32
    } else {
        0
    }
}

/// Parses the digit run `s[from..to]` as an unsigned 32-bit value, `None`
/// exactly when the value overflows 32 bits.
pub fn parse_u32_digits(s: &str, from: usize, to: usize) -> (r: Option<u32>)
    requires
        from <= to <= s@.len(),
        forall|j: int| from <= j < to ==> is_digit(s@[j]),
    ensures
        match r {
            Some(v) => digits_val(s@.subrange(from as int, to as int)) <= u32::MAX && v
                == digits_val(s@.subrange(from as int, to as int)),
            None => digits_val(s@.subrange(from as int, to as int)) > u32::MAX,
        },
{
    let ghost whole = s@.subrange(from as int, to as int);
    let mut i = from;
    let mut acc: u64 = 0;
    let mut over = false;
    while i < to
        invariant
            from <= i <= to <= s@.len(),
            forall|j: int| from <= j < to ==> is_digit(s@[j]),
            whole == s@.subrange(from as int, to as int),
            !over ==> acc == digits_val(s@.subrange(from as int, i as int)) && acc <= u32::MAX,
            over ==> digits_val(s@.subrange(from as int, i as int)) > u32::MAX,
        decreases to - i,
    {
        let ghost pre = s@.subrange(from as int, i as int);
        let ghost post = s@.subrange(from as int, i as int + 1);
        proof {
            assert(post.drop_last() =~= pre);
            assert(post.last() == s@[i as int]);
        }
        if !over {
            let c = s.get_char(i);
            assert(is_digit(s@[i as int]));
            let d: u64 = (c as u32 as u64) - 48;
            let next: u64 = acc * 10 + d;
            if next > u32::MAX as u64 {
                over = true;
            } else {
                acc = next;
            }
        } else {
            proof {
                lemma_digits_val_bounds(post);
            }
        }
        i = i + 1;
    }
    if over {
        None
    } else {
        Some(acc as u32)
    }
}

/// Parses the digit run `s[from..to]` as a pid, degrading to zero on
/// overflow.
pub fn parse_pid_digits(s: &str, from: usize, to: usize) -> (r: u32)
    requires
        from <= to <= s@.len(),
        forall|j: int| from <= j < to ==> is_digit(s@[j]),
    ensures
        r == pid_of_digits(s@.subrange(from as int, to as int)),
{
    match parse_u32_digits(s, from, to) {
        Some(v) => v,
        None => 0,
    }
}

/// The trailing carriage return that a line ending may carry, removed.
pub open spec fn strip_cr(s: Seq<char>) -> Seq<char> {
    if s.len() > 0 && s.last() == '\r' {
        s.drop_last()
    } else {
        s
    }
}

/// The lines of `s` from position `i` on: segments split at line feeds,
/// each with one trailing carriage return removed, a final line ending
/// optional.
pub open spec fn lines_from(s: Seq<char>, i: int) -> Seq<Seq<char>>
    decreases s.len() - i,
{
    if i < 0 || i >= s.len() {
        Seq::empty()
    } else {
        let b = line_break(s, i);
        let seg = strip_cr(s.subrange(i, b));
        if !(i <= b && b < s.len()) {
            seq![seg]
        } else {
            seq![seg] + lines_from(s, b + 1)
        }
    }
}

/// The lines of `s`.
pub open spec fn lines_spec(s: Seq<char>) -> Seq<Seq<char>> {
    lines_from(s, 0)
}

/// Splits raw command output into lines, as `lines_spec` describes.
pub fn split_lines(s: &str) -> (r: Vec<String>)
    ensures
        r.deep_view() == lines_spec(s@),
{
    let n = s.unicode_len();
    let mut r: Vec<String> = Vec::new();
    let mut start: usize = 0;
    while start < n
        invariant
            n == s@.len(),
            start <= n,
            r.deep_view() + lines_from(s@, start as int) =~= lines_spec(s@),
        decreases n - start,
    {
        let b = find_line_break(s, start);
        proof {
            lemma_line_break(s@, start as int);
        }
        let seg_end = if b > start && s.get_char(b - 1) == '\r' {
            b - 1
        } else {
            b
        };
        let ghost seg = strip_cr(s@.subrange(start as int, b as int));
        proof {
            assert(s@.subrange(start as int, seg_end as int) =~= seg);
        }
        let piece = s.substring_char(start, seg_end).to_owned();
        r.push(piece);
        proof {
            if b < n {
                assert(lines_from(s@, start as int) =~= seq![seg] + lines_from(
                    s@,
                    b as int + 1,
                ));
            } else {
                assert(lines_from(s@, start as int) =~= seq![seg]);
            }
        }
        if b < n {
            start = b + 1;
        } else {
            start = n;
        }
    }
    proof {
        assert(lines_from(s@, start as int) =~= Seq::<Seq<char>>::empty());
    }
    r
}

} // verus!

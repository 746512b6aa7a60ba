//! Best-effort window-title lookup from raw command output.  On the
//! structured platform the output is the title itself, trimmed, absent when
//! empty.  On the other platform the output lists one window per line:
//! whitespace-separated tokens of which the third is the owning process
//! identifier and the fifth onward, rejoined with single spaces, are the
//! title.

use vstd::prelude::*;

use crate::text::digit_end;
use crate::text::digits_val;
use crate::text::is_wspace;
use crate::text::lemma_digit_end;
use crate::text::lemma_nonspace_end;
use crate::text::lines_spec;
use crate::text::nonspace_end;
use crate::text::parse_u32_digits;
use crate::text::skip_digits;
use crate::text::skip_nonspace;
use crate::text::split_lines;
use crate::text::trim;
use crate::text::trim_spec;
use crate::text::wspace_char;

verus! {

/// The whitespace-separated tokens of `s` from position `i` on.
pub open spec fn tokens_from(s: Seq<char>, i: int) -> Seq<Seq<char>>
    decreases s.len() - i,
{
    if i < 0 || i >= s.len() {
        Seq::empty()
    } else if is_wspace(s[i]) {
        tokens_from(s, i + 1)
    } else {
        let e = nonspace_end(s, i);
        if !(i < e && e <= s.len()) {
            Seq::empty()
        } else {
            seq![s.subrange(i, e)] + tokens_from(s, e)
        }
    }
}

/// The whitespace-separated tokens of `s`.
pub open spec fn tokens_spec(s: Seq<char>) -> Seq<Seq<char>> {
    tokens_from(s, 0)
}

/// Splits into whitespace-separated tokens, as `tokens_spec` describes.
#[verifier::loop_isolation(false)]
pub fn split_tokens(s: &str) -> (r: Vec<String>)
    ensures
        r.deep_view() == tokens_spec(s@),
{
    let n = s.unicode_len();
    let mut r: Vec<String> = Vec::new();
    let mut i: usize = 0;
    proof {
        assert(r.deep_view() =~= Seq::<Seq<char>>::empty());
    }
    while i < n
        invariant
            i <= n,
            r.deep_view() + tokens_from(s@, i as int) =~= tokens_spec(s@),
        decreases n - i,
    {
        if wspace_char(s.get_char(i)) {
            i = i + 1;
        } else {
            let e = skip_nonspace(s, i);
            proof {
                lemma_nonspace_end(s@, i as int + 1);
                assert(nonspace_end(s@, i as int) == nonspace_end(s@, i as int + 1));
                assert(i < e && e <= s@.len());
            }
            let ghost before = r.deep_view();
            r.push(s.substring_char(i, e).to_owned());
            proof {
                assert(r.deep_view() =~= before.push(s@.subrange(i as int, e as int)));
            }
            i = e;
        }
    }
    r
}

/// What parsing a token as an unsigned 32-bit number yields: past an
/// optional leading plus sign, the digit run must be non-empty and cover
/// the whole token, and its value must fit 32 bits.
pub open spec fn parse_u32_spec(s: Seq<char>) -> Option<u32> {
    let b0: int = if s.len() > 0 && s[0] == '+' {
        1
    } else {
        0
    };
    if b0 < s.len() && digit_end(s, b0) == s.len() && digits_val(
        s.subrange(b0, s.len() as int),
    ) <= u32::MAX {
        Some(digits_val(s.subrange(b0, s.len() as int)) as u32)
    } else {
        None
    }
}

/// Parses a token as an unsigned 32-bit number, as `parse_u32_spec`
/// describes.
pub fn parse_u32_token(s: &str) -> (r: Option<u32>)
    ensures
        r == parse_u32_spec(s@),
{
    let n = s.unicode_len();
    let start: usize = if n > 0 && s.get_char(0) == '+' {
        1
    } else {
        0
    };
    if start >= n {
        return None;
    }
    let de = skip_digits(s, start);
    proof {
        lemma_digit_end(s@, start as int);
    }
    if de != n {
        return None;
    }
    parse_u32_digits(s, start, n)
}

/// The fifth token onward, rejoined with single spaces.
pub open spec fn join_spaces(parts: Seq<Seq<char>>) -> Seq<char>
    decreases parts.len(),
{
    if parts.len() == 0 {
        Seq::empty()
    } else if parts.len() == 1 {
        parts[0]
    } else {
        parts[0] + seq![' '] + join_spaces(parts.drop_first())
    }
}

pub proof fn lemma_join_push(parts: Seq<Seq<char>>, x: Seq<char>)
    requires
        parts.len() >= 1,
    ensures
        join_spaces(parts.push(x)) == join_spaces(parts) + seq![' '] + x,
    decreases parts.len(),
{
    if parts.len() == 1 {
        assert(parts.push(x).drop_first() =~= seq![x]);
        assert(parts.push(x)[0] == parts[0]);
        assert(join_spaces(seq![x]) == x);
    } else {
        lemma_join_push(parts.drop_first(), x);
        assert(parts.push(x).drop_first() =~= parts.drop_first().push(x));
        assert(parts.push(x)[0] == parts[0]);
    }
}

/// The title one listing line reports for `pid`: at least five tokens, the
/// third parsing as exactly that identifier; the title is the fifth token
/// onward rejoined with single spaces.
pub open spec fn line_title_for(line: Seq<char>, pid: u32) -> Option<Seq<char>> {
    let parts = tokens_spec(line);
    if parts.len() < 5 {
        None
    } else if parse_u32_spec(parts[2]) == Some(pid) {
        Some(join_spaces(parts.skip(4)))
    } else {
        None
    }
}

/// The title the whole listing reports for `pid`: the first line that
/// reports one.
pub open spec fn listing_title_for(ls: Seq<Seq<char>>, pid: u32) -> Option<Seq<char>>
    decreases ls.len(),
{
    if ls.len() == 0 {
        None
    } else if line_title_for(ls[0], pid) is Some {
        line_title_for(ls[0], pid)
    } else {
        listing_title_for(ls.drop_first(), pid)
    }
}

/// Looks the window title for `pid` up in the raw window listing, as
/// `listing_title_for` describes.
#[verifier::loop_isolation(false)]
pub fn window_title_from_listing(pid: u32, raw: &str) -> (r: Option<String>)
    ensures
        match r {
            Some(t) => listing_title_for(lines_spec(raw@), pid) == Some(t@),
            None => listing_title_for(lines_spec(raw@), pid) is None,
        },
{
    let lines = split_lines(raw);
    let ghost lviews = lines.deep_view();
    let mut i: usize = 0;
    proof {
        assert(lviews.skip(0) =~= lviews);
    }
    while i < lines.len()
        invariant
            i <= lines.len(),
            listing_title_for(lviews, pid) == listing_title_for(lviews.skip(i as int), pid),
        decreases lines.len() - i,
    {
        proof {
            assert(lviews.skip(i as int).drop_first() =~= lviews.skip(i as int + 1));
            assert(lviews.skip(i as int)[0] == lines[i as int]@);
        }
        let parts = split_tokens(lines[i].as_str());
        let ghost pviews = parts.deep_view();
        if parts.len() >= 5 {
            let parsed_pid = parse_u32_token(parts[2].as_str());
            match parsed_pid {
                Some(line_pid) => {
                    if line_pid == pid {
                        let mut title = parts[4].clone();
                    let mut k: usize = 5;
                    proof {
                        assert(pviews.subrange(4, 5) =~= seq![pviews[4]]);
                        assert(join_spaces(seq![pviews[4]]) == pviews[4]);
                    }
                    while k < parts.len()
                        invariant
                            5 <= k <= parts.len(),
                            title@ == join_spaces(pviews.subrange(4, k as int)),
                        decreases parts.len() - k,
                    {
                        proof {
                            assert(pviews.subrange(4, k as int + 1) =~= pviews.subrange(
                                4,
                                k as int,
                            ).push(pviews[k as int]));
                            lemma_join_push(pviews.subrange(4, k as int), pviews[k as int]);
                        }
                        title.append(" ");
                        title.append(parts[k].as_str());
                        proof {
                            reveal_strlit(" ");
                            assert(" "@ =~= seq![' ']);
                        }
                        k = k + 1;
                    }
                        proof {
                            assert(pviews.subrange(4, parts@.len() as int) =~= pviews.skip(4));
                        }
                        return Some(title);
                    }
                },
                None => {},
            }
        }
        i = i + 1;
    }
    proof {
        assert(lviews.skip(lines@.len() as int) =~= Seq::<Seq<char>>::empty());
    }
    None
}

/// The title the structured query reports: the raw output trimmed, absent
/// when empty.
pub fn title_from_output(raw: &str) -> (r: Option<String>)
    ensures
        match r {
            Some(t) => trim_spec(raw@).len() > 0 && t@ == trim_spec(raw@),
            None => trim_spec(raw@).len() == 0,
        },
{
    let t = trim(raw);
    if t.as_str().is_empty() {
        None
    } else {
        Some(t)
    }
}

} // verus!

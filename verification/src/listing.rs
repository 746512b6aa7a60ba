//! The plain-text process listing: each line of the raw output carries a
//! whitespace-delimited name token, a decimal identifier token, and the
//! remainder as the executable path.  A line without that shape is dropped;
//! an identifier too large for 32 bits degrades to zero.

use vstd::prelude::*;

use crate::ProcessRecord;
use crate::ProcessRecordView;
use crate::text::digit_end;
use crate::text::is_wspace;
use crate::text::lemma_digit_end;
use crate::text::lines_spec;
use crate::text::nonspace_end;
use crate::text::parse_pid_digits;
use crate::text::pid_of_digits;
use crate::text::skip_digits;
use crate::text::skip_nonspace;
use crate::text::skip_wspace;
use crate::text::split_lines;
use crate::text::trim;
use crate::text::trim_spec;
use crate::text::wspace_char;
use crate::text::wspace_end;

verus! {

/// End of the line's leading name token.
pub open spec fn ps_name_end(line: Seq<char>) -> int {
    nonspace_end(line, 0)
}

/// Start of the line's identifier token.
pub open spec fn ps_digits_start(line: Seq<char>) -> int {
    wspace_end(line, ps_name_end(line))
}

/// End of the line's identifier token.
pub open spec fn ps_digits_end(line: Seq<char>) -> int {
    digit_end(line, ps_digits_start(line))
}

/// Whether a raw line has the three parseable tokens: a non-empty name, at
/// least one whitespace, a non-empty digit run bounded by whitespace, and a
/// non-empty remainder.
pub open spec fn ps_line_matches(line: Seq<char>) -> bool {
    let ne = ps_name_end(line);
    let ds = ps_digits_start(line);
    let de = ps_digits_end(line);
    &&& 0 < ne
    &&& ne < ds
    &&& ds < de
    &&& de + 1 < line.len()
    &&& is_wspace(line[de])
}

/// The record a matching line denotes: its name token, its identifier
/// (zero on 32-bit overflow), and the trimmed remainder as the path.
pub open spec fn ps_record_of(line: Seq<char>) -> ProcessRecordView {
    ProcessRecordView {
        name: line.subrange(0, ps_name_end(line)),
        pid: pid_of_digits(line.subrange(ps_digits_start(line), ps_digits_end(line))),
        exe: trim_spec(line.subrange(ps_digits_end(line), line.len() as int)),
    }
}

/// What one raw line contributes: its record when it matches, nothing
/// otherwise.
pub open spec fn line_records(l: Seq<char>) -> Seq<ProcessRecordView> {
    if ps_line_matches(l) {
        seq![ps_record_of(l)]
    } else {
        Seq::<ProcessRecordView>::empty()
    }
}

/// The records of a sequence of lines, matching lines kept in order,
/// the rest dropped.
pub open spec fn ps_records_of_lines(ls: Seq<Seq<char>>) -> Seq<ProcessRecordView>
    decreases ls.len(),
{
    if ls.len() == 0 {
        Seq::empty()
    } else {
        line_records(ls[0]) + ps_records_of_lines(ls.drop_first())
    }
}

/// The records of a raw plain-text listing.
pub open spec fn ps_records(raw: Seq<char>) -> Seq<ProcessRecordView> {
    ps_records_of_lines(lines_spec(raw))
}

/// The views of a vector of records.
pub open spec fn records_view(rs: Seq<ProcessRecord>) -> Seq<ProcessRecordView> {
    rs.map_values(|p: ProcessRecord| p@)
}

/// Parses one raw line, returning its record exactly when the line has the
/// three parseable tokens.
pub fn parse_ps_line(line: &str) -> (r: Option<ProcessRecord>)
    ensures
        match r {
            Some(rec) => ps_line_matches(line@) && rec@ == ps_record_of(line@),
            None => !ps_line_matches(line@),
        },
{
    let n = line.unicode_len();
    let ne = skip_nonspace(line, 0);
    if ne == 0 {
        return None;
    }
    let ds = skip_wspace(line, ne);
    if ds == ne {
        return None;
    }
    let de = skip_digits(line, ds);
    if de == ds {
        return None;
    }
    if n - de < 2 {
        return None;
    }
    if !wspace_char(line.get_char(de)) {
        return None;
    }
    proof {
        lemma_digit_end(line@, ds as int);
    }
    let name = line.substring_char(0, ne).to_owned();
    let pid = parse_pid_digits(line, ds, de);
    let exe = trim(line.substring_char(de, n));
    let rec = ProcessRecord { name, pid, exe };
    proof {
        assert(rec@ =~= ps_record_of(line@));
    }
    Some(rec)
}

/// Normalizes a raw plain-text listing into records: matching lines kept in
/// order, malformed lines dropped without aborting the rest.
pub fn parse_ps_listing(raw: &str) -> (r: Vec<ProcessRecord>)
    ensures
        records_view(r@) == ps_records(raw@),
{
    let lines = split_lines(raw);
    let ghost lviews = lines.deep_view();
    let mut r: Vec<ProcessRecord> = Vec::new();
    let mut i: usize = 0;
    proof {
        assert(lviews.skip(0) =~= lviews);
        assert(records_view(r@) =~= Seq::<ProcessRecordView>::empty());
    }
    while i < lines.len()
        invariant
            i <= lines.len(),
            lviews == lines.deep_view(),
            lviews == lines_spec(raw@),
            records_view(r@) + ps_records_of_lines(lviews.skip(i as int)) =~= ps_records_of_lines(
                lviews,
            ),
        decreases lines.len() - i,
    {
        proof {
            assert(lviews.skip(i as int).drop_first() =~= lviews.skip(i as int + 1));
            assert(lviews.skip(i as int)[0] == lines[i as int]@);
        }
        let parsed = parse_ps_line(lines[i].as_str());
        match parsed {
            Some(rec) => {
                let ghost before = r@;
                r.push(rec);
                proof {
                    assert(records_view(r@) =~= records_view(before) + seq![rec@]);
                }
            },
            None => {},
        }
        i = i + 1;
    }
    proof {
        assert(lviews.skip(i as int) =~= Seq::<Seq<char>>::empty());
        assert(records_view(r@) =~= ps_records_of_lines(lviews));
    }
    r
}

/// Concatenating line sequences concatenates their records.
pub proof fn lemma_records_concat(a: Seq<Seq<char>>, b: Seq<Seq<char>>)
    ensures
        ps_records_of_lines(a + b) == ps_records_of_lines(a) + ps_records_of_lines(b),
    decreases a.len(),
{
    if a.len() == 0 {
        assert(a + b =~= b);
        assert(ps_records_of_lines(a + b) =~= ps_records_of_lines(a) + ps_records_of_lines(b));
    } else {
        lemma_records_concat(a.drop_first(), b);
        assert((a + b).drop_first() =~= a.drop_first() + b);
        assert((a + b)[0] == a[0]);
        assert(ps_records_of_lines(a + b) =~= ps_records_of_lines(a) + ps_records_of_lines(b));
    }
}

/// A malformed line — one without the three parseable tokens — contributes
/// no record, and dropping it leaves every other line's record in place:
/// one bad line never aborts the rest of the batch.
pub proof fn lemma_malformed_line_dropped(ls: Seq<Seq<char>>, j: int)
    requires
        0 <= j < ls.len(),
        !ps_line_matches(ls[j]),
    ensures
        ps_records_of_lines(ls) == ps_records_of_lines(ls.remove(j)),
{
    let front = ls.subrange(0, j);
    let back = ls.subrange(j + 1, ls.len() as int);
    let mid = seq![ls[j]];
    assert(ls =~= front + (mid + back));
    assert(ls.remove(j) =~= front + back);
    lemma_records_concat(front, mid + back);
    lemma_records_concat(mid, back);
    lemma_records_concat(front, back);
    assert(mid.drop_first() =~= Seq::<Seq<char>>::empty());
    assert(ps_records_of_lines(Seq::<Seq<char>>::empty()) =~= Seq::<ProcessRecordView>::empty());
    assert(ps_records_of_lines(mid) =~= Seq::<ProcessRecordView>::empty());
    assert(ps_records_of_lines(ls) =~= ps_records_of_lines(ls.remove(j)));
}

/// Removing one line removes exactly its contribution, as multisets.
pub proof fn lemma_records_remove(ls: Seq<Seq<char>>, j: int)
    requires
        0 <= j < ls.len(),
    ensures
        ps_records_of_lines(ls).to_multiset() == ps_records_of_lines(ls.remove(j)).to_multiset()
            .add(line_records(ls[j]).to_multiset()),
{
    broadcast use vstd::seq_lib::lemma_multiset_commutative;

    let front = ls.subrange(0, j);
    let back = ls.subrange(j + 1, ls.len() as int);
    let mid = seq![ls[j]];
    assert(ls =~= front + (mid + back));
    assert(ls.remove(j) =~= front + back);
    lemma_records_concat(front, mid + back);
    lemma_records_concat(mid, back);
    lemma_records_concat(front, back);
    assert(mid.drop_first() =~= Seq::<Seq<char>>::empty());
    assert(ps_records_of_lines(Seq::<Seq<char>>::empty()) =~= Seq::<ProcessRecordView>::empty());
    assert(ps_records_of_lines(mid) =~= line_records(ls[j]));
    let fr = ps_records_of_lines(front).to_multiset();
    let br = ps_records_of_lines(back).to_multiset();
    let mr = line_records(ls[j]).to_multiset();
    assert(ps_records_of_lines(ls).to_multiset() =~= fr.add(mr.add(br)));
    assert(ps_records_of_lines(ls.remove(j)).to_multiset() =~= fr.add(br));
    assert(fr.add(mr.add(br)) =~= fr.add(br).add(mr));
}

/// Lines that are equal as a multiset yield records that are equal as a
/// multiset: the order of the raw listing does not matter.
pub proof fn lemma_records_permutation(ls1: Seq<Seq<char>>, ls2: Seq<Seq<char>>)
    requires
        ls1.to_multiset() == ls2.to_multiset(),
    ensures
        ps_records_of_lines(ls1).to_multiset() == ps_records_of_lines(ls2).to_multiset(),
    decreases ls1.len(),
{
    broadcast use vstd::seq_lib::group_to_multiset_ensures;
    broadcast use vstd::seq_lib::lemma_multiset_commutative;

    if ls1.len() == 0 {
        assert(ls1.to_multiset().len() == ls1.len());
        assert(ls2.to_multiset().len() == ls2.len());
        assert(ls2.len() == 0);
        assert(ps_records_of_lines(ls1).to_multiset() =~= ps_records_of_lines(
            ls2,
        ).to_multiset());
    } else {
        let x = ls1[0];
        assert(ls1.contains(x));
        assert(ls2.to_multiset().count(x) > 0);
        assert(ls2.contains(x));
        let j = choose|j: int| 0 <= j < ls2.len() && ls2[j] == x;
        assert(ls1.drop_first() =~= ls1.remove(0));
        assert(ls1.remove(0).to_multiset() == ls1.to_multiset().remove(x));
        assert(ls2.remove(j).to_multiset() == ls2.to_multiset().remove(x));
        lemma_records_permutation(ls1.drop_first(), ls2.remove(j));
        lemma_records_remove(ls2, j);
        assert(ps_records_of_lines(ls1) =~= line_records(x) + ps_records_of_lines(
            ls1.drop_first(),
        ));
        assert(ps_records_of_lines(ls1).to_multiset() =~= ps_records_of_lines(
            ls1.drop_first(),
        ).to_multiset().add(line_records(x).to_multiset()));
    }
}

/// Enumeration is idempotent up to order: two raw plain-text listings
/// whose lines are the same multiset — the process table unchanged, the
/// listing order varying — normalize to set-equal records.
pub proof fn lemma_enumerate_set_equal(raw1: Seq<char>, raw2: Seq<char>)
    requires
        lines_spec(raw1).to_multiset() == lines_spec(raw2).to_multiset(),
    ensures
        ps_records(raw1).to_multiset() == ps_records(raw2).to_multiset(),
{
    lemma_records_permutation(lines_spec(raw1), lines_spec(raw2));
}

} // verus!

//! Matching candidate executable names against the process table, case
//! insensitively, and assembling the candidate list itself: either the
//! caller's explicit override name or the names an install-directory scan
//! produced, plus the well-known auxiliary launcher name on the
//! extension-gated platform.

use vstd::prelude::*;

use crate::Platform;
use crate::ProcessInfo;
use crate::ProcessInfoView;
use crate::ProcessRecord;
use crate::ProcessRecordView;
use crate::listing::records_view;

verus! {

/// What `str::to_lowercase` returns: a function of the characters alone.
pub uninterp spec fn lower_of(s: Seq<char>) -> Seq<char>;

/// Relies on `str::to_lowercase`: the lowercase equivalent of the string,
/// determined by its characters alone.
#[verifier::external_body]
fn lowercase(s: &str) -> (r: String)
    ensures
        r@ == lower_of(s@),
{
    s.to_lowercase()
}

/// Whether a candidate name matches a process name: equal ignoring case.
pub open spec fn name_matches(cand: Seq<char>, name: Seq<char>) -> bool {
    lower_of(cand) == lower_of(name)
}

/// The views of a vector of match results.
pub open spec fn infos_view(rs: Seq<ProcessInfo>) -> Seq<ProcessInfoView> {
    rs.map_values(|p: ProcessInfo| p@)
}

/// The match entry a record contributes: its identifier and path.
pub open spec fn info_of_record(r: ProcessRecordView) -> ProcessInfoView {
    ProcessInfoView { pid: r.pid, exe: r.exe }
}

/// The matches of one candidate against the table, in table order.
pub open spec fn candidate_matches(cand: Seq<char>, table: Seq<ProcessRecordView>) -> Seq<
    ProcessInfoView,
>
    decreases table.len(),
{
    if table.len() == 0 {
        Seq::empty()
    } else {
        let head = if name_matches(cand, table[0].name) {
            seq![info_of_record(table[0])]
        } else {
            Seq::<ProcessInfoView>::empty()
        };
        head + candidate_matches(cand, table.drop_first())
    }
}

/// All matches of all candidates, candidate-major, duplicates kept.
pub open spec fn all_matches(cands: Seq<Seq<char>>, table: Seq<ProcessRecordView>) -> Seq<
    ProcessInfoView,
>
    decreases cands.len(),
{
    if cands.len() == 0 {
        Seq::empty()
    } else {
        candidate_matches(cands[0], table) + all_matches(cands.drop_first(), table)
    }
}

/// Matching is case-insensitive: two candidates that agree ignoring case
/// match exactly the same records of any table.
pub proof fn lemma_match_case_insensitive(
    c1: Seq<char>,
    c2: Seq<char>,
    table: Seq<ProcessRecordView>,
)
    requires
        lower_of(c1) == lower_of(c2),
    ensures
        candidate_matches(c1, table) == candidate_matches(c2, table),
    decreases table.len(),
{
    if table.len() > 0 {
        lemma_match_case_insensitive(c1, c2, table.drop_first());
    }
}

/// Every process record whose name matches a candidate, case-insensitively,
/// candidate-major, duplicates kept; a candidate with no match contributes
/// nothing.
#[verifier::loop_isolation(false)]
pub fn match_processes(candidates: &Vec<String>, table: &Vec<ProcessRecord>) -> (r: Vec<
    ProcessInfo,
>)
    ensures
        infos_view(r@) == all_matches(candidates.deep_view(), records_view(table@)),
{
    let ghost cviews = candidates.deep_view();
    let ghost tviews = records_view(table@);
    let mut out: Vec<ProcessInfo> = Vec::new();
    let mut i: usize = 0;
    proof {
        assert(cviews.skip(0) =~= cviews);
        assert(infos_view(out@) =~= Seq::<ProcessInfoView>::empty());
    }
    while i < candidates.len()
        invariant
            i <= candidates.len(),
            infos_view(out@) + all_matches(cviews.skip(i as int), tviews) =~= all_matches(
                cviews,
                tviews,
            ),
        decreases candidates.len() - i,
    {
        proof {
            assert(cviews.skip(i as int).drop_first() =~= cviews.skip(i as int + 1));
            assert(cviews.skip(i as int)[0] == candidates[i as int]@);
        }
        let cand_lower = lowercase(candidates[i].as_str());
        let mut j: usize = 0;
        proof {
            assert(tviews.skip(0) =~= tviews);
        }
        while j < table.len()
            invariant
                j <= table.len(),
                cand_lower@ == lower_of(cviews[i as int]),
                infos_view(out@) + candidate_matches(cviews[i as int], tviews.skip(j as int))
                    + all_matches(cviews.skip(i as int + 1), tviews) =~= all_matches(
                    cviews,
                    tviews,
                ),
            decreases table.len() - j,
        {
            proof {
                assert(tviews.skip(j as int).drop_first() =~= tviews.skip(j as int + 1));
                assert(tviews.skip(j as int)[0] == table[j as int]@);
            }
            let name_lower = lowercase(table[j].name.as_str());
            if cand_lower == name_lower {
                let ghost before = out@;
                out.push(ProcessInfo { pid: table[j].pid, exe: table[j].exe.clone() });
                proof {
                    assert(infos_view(out@) =~= infos_view(before) + seq![
                        info_of_record(tviews[j as int]),
                    ]);
                }
            }
            j = j + 1;
        }
        proof {
            assert(tviews.skip(table@.len() as int) =~= Seq::<ProcessRecordView>::empty());
        }
        i = i + 1;
    }
    proof {
        assert(cviews.skip(candidates@.len() as int) =~= Seq::<Seq<char>>::empty());
        assert(infos_view(out@) =~= all_matches(cviews, tviews));
    }
    out
}

/// The well-known auxiliary launcher name, always an implicit candidate on
/// the extension-gated platform.
pub open spec fn aux_candidate() -> Seq<char> {
    "SAM.Game.exe"@
}

/// The view of an optional override name.
pub open spec fn opt_name_view(o: Option<String>) -> Option<Seq<char>> {
    match o {
        Some(g) => Some(g@),
        None => None,
    }
}

/// The candidate names used for matching: the explicit override alone when
/// one is supplied, else the scanned names; with the auxiliary launcher name
/// appended on the extension-gated platform.
pub open spec fn spec_candidates(
    linked: Option<Seq<char>>,
    scanned: Seq<Seq<char>>,
    platform: Platform,
) -> Seq<Seq<char>> {
    let base = match linked {
        Some(g) => seq![g],
        None => scanned,
    };
    if platform == Platform::Windows {
        base.push(aux_candidate())
    } else {
        base
    }
}

/// Override precedence: with an explicit name supplied, the candidates do
/// not depend on what an install-directory scan produced.
pub proof fn lemma_override_ignores_scan(
    g: Seq<char>,
    scanned1: Seq<Seq<char>>,
    scanned2: Seq<Seq<char>>,
    platform: Platform,
)
    ensures
        spec_candidates(Some(g), scanned1, platform) == spec_candidates(Some(g), scanned2, platform),
{
}

/// Builds the candidate list, as `spec_candidates` describes.
#[verifier::loop_isolation(false)]
pub fn candidate_names(linked: Option<String>, scanned: &Vec<String>, platform: Platform) -> (r:
    Vec<String>)
    ensures
        r.deep_view() == spec_candidates(opt_name_view(linked), scanned.deep_view(), platform),
{
    let mut r: Vec<String> = Vec::new();
    match linked {
        Some(g) => {
            let ghost gv = g@;
            r.push(g);
            proof {
                assert(r.deep_view() =~= seq![gv]);
            }
        },
        None => {
            let mut i: usize = 0;
            while i < scanned.len()
                invariant
                    i <= scanned.len(),
                    r.deep_view() =~= scanned.deep_view().take(i as int),
                decreases scanned.len() - i,
            {
                let ghost before = r.deep_view();
                r.push(scanned[i].clone());
                proof {
                    assert(r.deep_view() =~= before.push(scanned[i as int]@));
                    assert(scanned.deep_view().take(i as int + 1) =~= scanned.deep_view().take(
                        i as int,
                    ).push(scanned[i as int]@));
                }
                i = i + 1;
            }
            proof {
                assert(r.deep_view() =~= scanned.deep_view());
            }
        },
    }
    if platform == Platform::Windows {
        let ghost before = r.deep_view();
        r.push("SAM.Game.exe".to_owned());
        proof {
            assert(r.deep_view() =~= before.push(aux_candidate()));
        }
    }
    r
}

/// The game's matching processes, from plain values: the candidate list is
/// assembled from the optional override and the scanned names, and every
/// table record whose name matches a candidate case-insensitively is
/// returned, duplicates kept.
pub fn get_game_processes(
    linked: Option<String>,
    scanned: &Vec<String>,
    platform: Platform,
    table: &Vec<ProcessRecord>,
) -> (r: Vec<ProcessInfo>)
    ensures
        infos_view(r@) == all_matches(
            spec_candidates(opt_name_view(linked), scanned.deep_view(), platform),
            records_view(table@),
        ),
{
    let cands = candidate_names(linked, scanned, platform);
    match_processes(&cands, table)
}

} // verus!

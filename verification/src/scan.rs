//! Install-directory scanning: stripping trailing launch arguments from the
//! install path the external client reports, and classifying directory
//! entries as candidate executables under the platform's heuristic — the
//! executable suffix on the extension-gated platform; execute permission
//! bits plus an extension allow-list on the permission-gated platform.

use vstd::prelude::*;

use crate::Platform;
use crate::text::is_alpha;
use crate::text::is_wspace;
use crate::text::alpha_char;
use crate::text::wspace_char;

verus! {

/// Whether a trailing launch-argument suffix starts at `p`: a whitespace,
/// a dash, and a letter.
pub open spec fn cut_at(s: Seq<char>, p: int) -> bool {
    &&& p + 3 <= s.len()
    &&& is_wspace(s[p])
    &&& s[p + 1] == '-'
    &&& is_alpha(s[p + 2])
}

/// The first position at or after `p` where a launch-argument suffix
/// starts, or the length if none does.
pub open spec fn cut_point(s: Seq<char>, p: int) -> int
    decreases s.len() - p,
{
    if p < 0 || p >= s.len() {
        s.len() as int
    } else if cut_at(s, p) {
        p
    } else {
        cut_point(s, p + 1)
    }
}

/// The install path with a trailing launch-argument suffix removed: the
/// shortest non-empty prefix followed by whitespace, a dash and a letter,
/// or the whole string when no such suffix occurs.
pub open spec fn strip_launch_suffix(s: Seq<char>) -> Seq<char> {
    s.subrange(0, cut_point(s, 1))
}

/// Removes a trailing launch-argument suffix from the reported install
/// path, as `strip_launch_suffix` describes.
#[verifier::loop_isolation(false)]
pub fn strip_launch_args(input: &str) -> (r: String)
    ensures
        r@ == strip_launch_suffix(input@),
{
    let n = input.unicode_len();
    if n == 0 {
        proof {
            assert(strip_launch_suffix(input@) =~= input@);
        }
        return input.to_owned();
    }
    let mut p: usize = 1;
    let mut found = false;
    while p < n && !found
        invariant
            1 <= p <= n,
            found ==> cut_at(input@, p as int) && cut_point(input@, 1) == p,
            !found ==> cut_point(input@, 1) == cut_point(input@, p as int),
        decreases n - p, 1int - (if found { 1int } else { 0int }),
    {
        let is_cut = n - p >= 3 && wspace_char(input.get_char(p)) && input.get_char(p + 1) == '-'
            && alpha_char(input.get_char(p + 2));
        if is_cut {
            found = true;
        } else {
            p = p + 1;
        }
    }
    let end = if found {
        p
    } else {
        proof {
            assert(cut_point(input@, p as int) == n);
        }
        n
    };
    input.substring_char(0, end).to_owned()
}

/// One filesystem entry as the walker hands it in: its bare file name,
/// whether it is a regular file, and its permission bits (zero where the
/// platform has none).
pub struct DirEntry {
    pub name: String,
    pub is_file: bool,
    pub unix_mode: u32,
}

/// Mathematical image of a `DirEntry`.
#[verifier::ext_equal]
pub ghost struct DirEntryView {
    pub name: Seq<char>,
    pub is_file: bool,
    pub unix_mode: u32,
}

impl View for DirEntry {
    type V = DirEntryView;

    open spec fn view(&self) -> DirEntryView {
        DirEntryView { name: self.name@, is_file: self.is_file, unix_mode: self.unix_mode }
    }
}

/// The views of a vector of entries.
pub open spec fn entries_view(es: Seq<DirEntry>) -> Seq<DirEntryView> {
    es.map_values(|e: DirEntry| e@)
}

/// Whether `name` ends with `suffix`.
pub open spec fn has_suffix(name: Seq<char>, suffix: Seq<char>) -> bool {
    name.len() >= suffix.len() && name.subrange(
        name.len() - suffix.len(),
        name.len() as int,
    ) == suffix
}

/// Whether the name carries no dot, hence no extension at all.
pub open spec fn has_no_dot(name: Seq<char>) -> bool {
    forall|i: int| 0 <= i < name.len() ==> name[i] != '.'
}

/// Extension-gated heuristic: a regular file whose name ends with the
/// executable suffix.
pub open spec fn windows_candidate(e: DirEntryView) -> bool {
    e.is_file && has_suffix(e.name, ".exe"@)
}

/// Permission-gated heuristic: a regular file, named, with at least one
/// execute bit, whose name has no extension or one from the allow-list
/// (shell script, shared object, emulated executable).
pub open spec fn linux_candidate(e: DirEntryView) -> bool {
    &&& e.is_file
    &&& e.name.len() > 0
    &&& e.unix_mode & 0o111u32 != 0u32
    &&& (has_no_dot(e.name) || has_suffix(e.name, ".sh"@) || has_suffix(e.name, ".so"@)
        || has_suffix(e.name, ".exe"@))
}

/// The platform's candidate-executable heuristic.
pub open spec fn is_exe_candidate(platform: Platform, e: DirEntryView) -> bool {
    match platform {
        Platform::Windows => windows_candidate(e),
        Platform::Linux => linux_candidate(e),
    }
}

/// The candidate names of a sequence of entries, in traversal order.
pub open spec fn scanned_names(platform: Platform, entries: Seq<DirEntryView>) -> Seq<Seq<char>>
    decreases entries.len(),
{
    if entries.len() == 0 {
        Seq::empty()
    } else {
        let head = if is_exe_candidate(platform, entries[0]) {
            seq![entries[0].name]
        } else {
            Seq::<Seq<char>>::empty()
        };
        head + scanned_names(platform, entries.drop_first())
    }
}

/// A directory with no qualifying executable scans to the empty sequence.
pub proof fn lemma_scan_no_candidates(platform: Platform, entries: Seq<DirEntryView>)
    requires
        forall|i: int| 0 <= i < entries.len() ==> !is_exe_candidate(platform, entries[i]),
    ensures
        scanned_names(platform, entries) == Seq::<Seq<char>>::empty(),
    decreases entries.len(),
{
    if entries.len() > 0 {
        lemma_scan_no_candidates(platform, entries.drop_first());
        assert(scanned_names(platform, entries) =~= Seq::<Seq<char>>::empty());
    }
}

/// Every candidate a scan yields is a non-empty file name.
pub proof fn lemma_scanned_names_nonempty(platform: Platform, entries: Seq<DirEntryView>)
    ensures
        forall|i: int|
            0 <= i < scanned_names(platform, entries).len() ==> scanned_names(
                platform,
                entries,
            )[i].len() > 0,
    decreases entries.len(),
{
    reveal_strlit(".exe");
    if entries.len() > 0 {
        lemma_scanned_names_nonempty(platform, entries.drop_first());
        let rest = scanned_names(platform, entries.drop_first());
        if is_exe_candidate(platform, entries[0]) {
            assert(".exe"@.len() == 4);
            assert(entries[0].name.len() > 0);
            assert(scanned_names(platform, entries) =~= seq![entries[0].name] + rest);
            assert(forall|i: int|
                1 <= i < scanned_names(platform, entries).len() ==> scanned_names(
                    platform,
                    entries,
                )[i] == rest[i - 1]);
        } else {
            assert(scanned_names(platform, entries) =~= rest);
        }
    }
}

/// Whether `name` ends with `suffix`, by characters.
#[verifier::loop_isolation(false)]
pub fn ends_with_suffix(name: &str, suffix: &str) -> (b: bool)
    ensures
        b == has_suffix(name@, suffix@),
{
    let n = name.unicode_len();
    let m = suffix.unicode_len();
    if n < m {
        return false;
    }
    let mut i: usize = 0;
    while i < m
        invariant
            i <= m,
            forall|j: int| 0 <= j < i ==> name@[n - m + j] == suffix@[j],
        decreases m - i,
    {
        if name.get_char(n - m + i) != suffix.get_char(i) {
            proof {
                if has_suffix(name@, suffix@) {
                    let ghost k = i as int;
                    assert(name@.subrange(n as int - m as int, n as int)[k] == suffix@[k]);
                }
            }
            return false;
        }
        i = i + 1;
    }
    proof {
        assert(name@.subrange(n as int - m as int, n as int) =~= suffix@);
    }
    true
}

/// Whether the name carries no dot.
#[verifier::loop_isolation(false)]
pub fn name_has_no_dot(name: &str) -> (b: bool)
    ensures
        b == has_no_dot(name@),
{
    let n = name.unicode_len();
    let mut i: usize = 0;
    while i < n
        invariant
            i <= n,
            forall|j: int| 0 <= j < i ==> name@[j] != '.',
        decreases n - i,
    {
        if name.get_char(i) == '.' {
            return false;
        }
        i = i + 1;
    }
    true
}

/// Classifies one entry under the platform's heuristic.
pub fn classify_entry(platform: Platform, e: &DirEntry) -> (b: bool)
    ensures
        b == is_exe_candidate(platform, e@),
{
    match platform {
        Platform::Windows => e.is_file && ends_with_suffix(e.name.as_str(), ".exe"),
        Platform::Linux => {
            if !(e.is_file && !e.name.as_str().is_empty() && e.unix_mode & 0o111u32 != 0u32) {
                false
            } else {
                name_has_no_dot(e.name.as_str()) || ends_with_suffix(e.name.as_str(), ".sh")
                    || ends_with_suffix(e.name.as_str(), ".so") || ends_with_suffix(
                    e.name.as_str(),
                    ".exe",
                )
            }
        },
    }
}

/// The names of the qualifying executables among the entries, in traversal
/// order; a directory with none yields the empty vector.
#[verifier::loop_isolation(false)]
pub fn scan_entries(platform: Platform, entries: &Vec<DirEntry>) -> (r: Vec<String>)
    ensures
        r.deep_view() == scanned_names(platform, entries_view(entries@)),
{
    let ghost eviews = entries_view(entries@);
    let mut r: Vec<String> = Vec::new();
    let mut i: usize = 0;
    proof {
        assert(eviews.skip(0) =~= eviews);
        assert(r.deep_view() =~= Seq::<Seq<char>>::empty());
    }
    while i < entries.len()
        invariant
            i <= entries.len(),
            r.deep_view() + scanned_names(platform, eviews.skip(i as int)) =~= scanned_names(
                platform,
                eviews,
            ),
        decreases entries.len() - i,
    {
        proof {
            assert(eviews.skip(i as int).drop_first() =~= eviews.skip(i as int + 1));
            assert(eviews.skip(i as int)[0] == entries[i as int]@);
        }
        if classify_entry(platform, &entries[i]) {
            let ghost before = r.deep_view();
            r.push(entries[i].name.clone());
            proof {
                assert(r.deep_view() =~= before.push(entries[i as int]@.name));
            }
        }
        i = i + 1;
    }
    proof {
        assert(eviews.skip(entries@.len() as int) =~= Seq::<DirEntryView>::empty());
        assert(r.deep_view() =~= scanned_names(platform, eviews));
    }
    r
}

} // verus!

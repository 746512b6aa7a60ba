//! The structured process listing: raw command output that is itself a JSON
//! array, one object per process.  Parsing is the JSON library's work and is
//! only declared here; each declared call's result is a function of its
//! argument alone, so it carries a name, and the records a document
//! normalizes to are stated exactly over those names.

use vstd::prelude::*;

use crate::ProcessRecord;
use crate::ProcessRecordView;
use crate::listing::records_view;

verus! {

#[verifier::external_type_specification]
#[verifier::external_body]
pub struct ExValue(serde_json::Value);

/// What `serde_json::from_str` yields on this text: one JSON document, or
/// nothing when the text does not parse.
pub uninterp spec fn json_of(s: Seq<char>) -> Option<serde_json::Value>;

/// The elements of a JSON value, exactly when it is an array.
pub uninterp spec fn array_elems_of(v: serde_json::Value) -> Option<Seq<serde_json::Value>>;

/// The text of a JSON value, exactly when it is a string.
pub uninterp spec fn str_of(v: serde_json::Value) -> Option<Seq<char>>;

/// The number of a JSON value, exactly when it is an integer that fits
/// 64 bits unsigned.
pub uninterp spec fn u64_of(v: serde_json::Value) -> Option<u64>;

/// The field of a JSON value under a key, exactly when it is an object
/// with that key.
pub uninterp spec fn field_of(v: serde_json::Value, key: Seq<char>) -> Option<serde_json::Value>;

/// Relies on `serde_json::from_str`: parses text as one JSON document, a
/// function of the text alone; a parse error is mapped to `None`.
#[verifier::external_body]
fn parse_json(s: &str) -> (r: Option<serde_json::Value>)
    ensures
        r == json_of(s@),
{
    serde_json::from_str(s).ok()
}

/// Relies on `serde_json::Value::as_array`: the elements, exactly when the
/// value is a JSON array.
pub assume_specification<'a>[ serde_json::Value::as_array ](v: &'a serde_json::Value) -> (r:
    Option<&'a Vec<serde_json::Value>>)
    ensures
        match r {
            Some(a) => array_elems_of(*v) == Some(a@),
            None => array_elems_of(*v) is None,
        },
;

/// Relies on `serde_json::Value::as_str`: the text, exactly when the value
/// is a JSON string.
pub assume_specification<'a>[ serde_json::Value::as_str ](v: &'a serde_json::Value) -> (r: Option<
    &'a str,
>)
    ensures
        match r {
            Some(s) => str_of(*v) == Some(s@),
            None => str_of(*v) is None,
        },
;

/// Relies on `serde_json::Value::as_u64`: the number, exactly when the
/// value is a JSON integer that fits 64 bits unsigned.
pub assume_specification[ serde_json::Value::as_u64 ](v: &serde_json::Value) -> (r: Option<u64>)
    ensures
        r == u64_of(*v),
;

/// Relies on `serde_json::Value::get` with a string index: the field of a
/// JSON object under that key, `None` for other values or a missing key.
#[verifier::external_body]
fn get_field<'a>(v: &'a serde_json::Value, key: &str) -> (r: Option<&'a serde_json::Value>)
    ensures
        match r {
            Some(f) => field_of(*v, key@) == Some(*f),
            None => field_of(*v, key@) is None,
        },
{
    v.get(key)
}

/// The name an element carries, exactly when its name field is textual.
pub open spec fn spec_element_name(v: serde_json::Value) -> Option<Seq<char>> {
    match field_of(v, "ProcessName"@) {
        Some(f) => str_of(f),
        None => None,
    }
}

/// The identifier an element carries: its numeric identifier field
/// truncated to 32 bits, or zero when the field is absent or not an
/// unsigned integer.
pub open spec fn spec_element_pid(v: serde_json::Value) -> u32 {
    match field_of(v, "ProcessId"@) {
        Some(f) => match u64_of(f) {
            Some(x) => (x % 0x1_0000_0000) as u32,
            None => 0,
        },
        None => 0,
    }
}

/// The path an element carries, empty when the path field is absent or not
/// textual.
pub open spec fn spec_element_exe(v: serde_json::Value) -> Seq<char> {
    match field_of(v, "ExecutablePath"@) {
        Some(f) => match str_of(f) {
            Some(s) => s,
            None => Seq::empty(),
        },
        None => Seq::empty(),
    }
}

/// The record one element denotes: its name, identifier and path fields,
/// exactly when it carries a textual name — an element without one can
/// never match and is dropped.
pub open spec fn spec_record_of_element(v: serde_json::Value) -> Option<ProcessRecordView> {
    match spec_element_name(v) {
        Some(n) => Some(
            ProcessRecordView { name: n, pid: spec_element_pid(v), exe: spec_element_exe(v) },
        ),
        None => None,
    }
}

/// What one element contributes: its record when it carries a textual
/// name, nothing otherwise.
pub open spec fn element_records(v: serde_json::Value) -> Seq<ProcessRecordView> {
    match spec_record_of_element(v) {
        Some(rec) => seq![rec],
        None => Seq::<ProcessRecordView>::empty(),
    }
}

/// The records of a sequence of array elements, in array order.
pub open spec fn records_of_elements(elems: Seq<serde_json::Value>) -> Seq<ProcessRecordView>
    decreases elems.len(),
{
    if elems.len() == 0 {
        Seq::empty()
    } else {
        element_records(elems[0]) + records_of_elements(elems.drop_first())
    }
}

/// The records of a raw structured listing: one per element that carries a
/// textual name when the text parses as a JSON array; anything else —
/// unparseable text or a non-array document — is the empty table.
pub open spec fn structured_records(raw: Seq<char>) -> Seq<ProcessRecordView> {
    match json_of(raw) {
        Some(doc) => match array_elems_of(doc) {
            Some(elems) => records_of_elements(elems),
            None => Seq::empty(),
        },
        None => Seq::empty(),
    }
}

/// One record from one element of the structured listing, as
/// `spec_record_of_element` describes: a missing or non-numeric identifier
/// degrades to zero, an identifier beyond 32 bits is truncated, a missing
/// path degrades to empty, and an element without a textual name is
/// dropped — a malformed element never aborts the batch.
fn record_of_element(v: &serde_json::Value) -> (r: Option<ProcessRecord>)
    ensures
        match r {
            Some(rec) => spec_record_of_element(*v) == Some(rec@),
            None => spec_record_of_element(*v) is None,
        },
{
    let name = match get_field(v, "ProcessName") {
        Some(f) => match f.as_str() {
            Some(s) => s.to_owned(),
            None => {
                return None;
            },
        },
        None => {
            return None;
        },
    };
    let pid: u32 = match get_field(v, "ProcessId") {
        Some(f) => match f.as_u64() {
            Some(x) => (x % 0x1_0000_0000u64) as u32,
            None => 0,
        },
        None => 0,
    };
    let exe = match get_field(v, "ExecutablePath") {
        Some(f) => match f.as_str() {
            Some(s) => s.to_owned(),
            None => String::new(),
        },
        None => String::new(),
    };
    proof {
        assert(spec_element_name(*v) == Some(name@));
        assert(pid == spec_element_pid(*v));
        assert(exe@ =~= spec_element_exe(*v));
    }
    let rec = ProcessRecord { name, pid, exe };
    proof {
        assert(rec@ =~= ProcessRecordView {
            name: spec_element_name(*v).unwrap(),
            pid: spec_element_pid(*v),
            exe: spec_element_exe(*v),
        });
    }
    Some(rec)
}

/// Normalizes a raw structured listing into records, exactly as
/// `structured_records` describes.
#[verifier::loop_isolation(false)]
pub fn parse_structured_listing(raw: &str) -> (r: Vec<ProcessRecord>)
    ensures
        records_view(r@) == structured_records(raw@),
{
    let mut r: Vec<ProcessRecord> = Vec::new();
    proof {
        assert(records_view(r@) =~= Seq::<ProcessRecordView>::empty());
    }
    let parsed = match parse_json(raw) {
        Some(v) => v,
        None => {
            return r;
        },
    };
    let arr = match parsed.as_array() {
        Some(a) => a,
        None => {
            return r;
        },
    };
    let ghost elems = arr@;
    let mut i: usize = 0;
    proof {
        assert(elems.skip(0) =~= elems);
    }
    while i < arr.len()
        invariant
            i <= arr@.len(),
            records_view(r@) + records_of_elements(elems.skip(i as int)) =~= records_of_elements(
                elems,
            ),
        decreases arr@.len() - i,
    {
        proof {
            assert(elems.skip(i as int).drop_first() =~= elems.skip(i as int + 1));
            assert(elems.skip(i as int)[0] == arr@[i as int]);
        }
        match record_of_element(&arr[i]) {
            Some(rec) => {
                let ghost before = r@;
                r.push(rec);
                proof {
                    assert(records_view(r@) =~= records_view(before) + seq![rec@]);
                }
            },
            None => {},
        }
        i = i + 1;
    }
    proof {
        assert(elems.skip(arr@.len() as int) =~= Seq::<serde_json::Value>::empty());
        assert(records_view(r@) =~= records_of_elements(elems));
    }
    r
}

/// Concatenating element sequences concatenates their records.
pub proof fn lemma_element_records_concat(a: Seq<serde_json::Value>, b: Seq<serde_json::Value>)
    ensures
        records_of_elements(a + b) == records_of_elements(a) + records_of_elements(b),
    decreases a.len(),
{
    if a.len() == 0 {
        assert(a + b =~= b);
        assert(records_of_elements(a + b) =~= records_of_elements(a) + records_of_elements(b));
    } else {
        lemma_element_records_concat(a.drop_first(), b);
        assert((a + b).drop_first() =~= a.drop_first() + b);
        assert((a + b)[0] == a[0]);
        assert(records_of_elements(a + b) =~= records_of_elements(a) + records_of_elements(b));
    }
}

/// Removing one element removes exactly its contribution, as multisets.
pub proof fn lemma_element_records_remove(elems: Seq<serde_json::Value>, j: int)
    requires
        0 <= j < elems.len(),
    ensures
        records_of_elements(elems).to_multiset() == records_of_elements(
            elems.remove(j),
        ).to_multiset().add(element_records(elems[j]).to_multiset()),
{
    broadcast use vstd::seq_lib::lemma_multiset_commutative;

    let front = elems.subrange(0, j);
    let back = elems.subrange(j + 1, elems.len() as int);
    let mid = seq![elems[j]];
    assert(elems =~= front + (mid + back));
    assert(elems.remove(j) =~= front + back);
    lemma_element_records_concat(front, mid + back);
    lemma_element_records_concat(mid, back);
    lemma_element_records_concat(front, back);
    assert(mid.drop_first() =~= Seq::<serde_json::Value>::empty());
    assert(records_of_elements(Seq::<serde_json::Value>::empty())
        =~= Seq::<ProcessRecordView>::empty());
    assert(records_of_elements(mid) =~= element_records(elems[j]));
    let fr = records_of_elements(front).to_multiset();
    let br = records_of_elements(back).to_multiset();
    let mr = element_records(elems[j]).to_multiset();
    assert(records_of_elements(elems).to_multiset() =~= fr.add(mr.add(br)));
    assert(records_of_elements(elems.remove(j)).to_multiset() =~= fr.add(br));
    assert(fr.add(mr.add(br)) =~= fr.add(br).add(mr));
}

/// Enumeration is idempotent up to order on the structured platform too:
/// documents whose array elements are the same multiset — the process
/// table unchanged, the listing order varying — normalize to set-equal
/// records.
pub proof fn lemma_structured_set_equal(
    elems1: Seq<serde_json::Value>,
    elems2: Seq<serde_json::Value>,
)
    requires
        elems1.to_multiset() == elems2.to_multiset(),
    ensures
        records_of_elements(elems1).to_multiset() == records_of_elements(elems2).to_multiset(),
    decreases elems1.len(),
{
    broadcast use vstd::seq_lib::group_to_multiset_ensures;
    broadcast use vstd::seq_lib::lemma_multiset_commutative;

    if elems1.len() == 0 {
        assert(elems1.to_multiset().len() == elems1.len());
        assert(elems2.to_multiset().len() == elems2.len());
        assert(elems2.len() == 0);
        assert(records_of_elements(elems1).to_multiset() =~= records_of_elements(
            elems2,
        ).to_multiset());
    } else {
        let x = elems1[0];
        assert(elems1.contains(x));
        assert(elems2.to_multiset().count(x) > 0);
        assert(elems2.contains(x));
        let j = choose|j: int| 0 <= j < elems2.len() && elems2[j] == x;
        assert(elems1.drop_first() =~= elems1.remove(0));
        assert(elems1.remove(0).to_multiset() == elems1.to_multiset().remove(x));
        assert(elems2.remove(j).to_multiset() == elems2.to_multiset().remove(x));
        lemma_structured_set_equal(elems1.drop_first(), elems2.remove(j));
        lemma_element_records_remove(elems2, j);
        assert(records_of_elements(elems1) =~= element_records(x) + records_of_elements(
            elems1.drop_first(),
        ));
        assert(records_of_elements(elems1).to_multiset() =~= records_of_elements(
            elems1.drop_first(),
        ).to_multiset().add(element_records(x).to_multiset()));
    }
}

} // verus!

//! Which results a report shows.
use crate::report_html::{
    all_millis, is_latest, law_one_record_per_circuit, nothing_found, opening_text,
    prefers_readable, rfc3339_millis, selects, skip_text, supersedes, translates, Content, Record,
};
use crate::text::trim;
use crate::tools::{lossy_text, ToolRun};
use vstd::prelude::*;

verus! {

/// By given times, the record shown of a circuit is the newest one and, of several equally new
/// ones, the one met first.
pub proof fn law_newest_by_time(
    records: Seq<Record>,
    millis: Seq<i64>,
    places: Seq<usize>,
    i: int,
    j: int,
)
    requires
        records.len() == millis.len(),
        selects(records, millis, places),
        0 <= i < places.len(),
        0 <= j < records.len(),
    ensures
        places[i] < records.len(),
        records[j].circuit@ == records[places[i] as int].circuit@ ==> {
            &&& millis[j] <= millis[places[i] as int]
            &&& millis[j] == millis[places[i] as int] ==> places[i] <= j
        },
{
    assert(is_latest(records, millis, places[i] as int));
    assert(!supersedes(records, millis, j, places[i] as int));
}

/// The record shown of a circuit is the newest: no other of its circuit was measured later, as far
/// as the times can be read, and of several measured at one time it is the one met first. One whose
/// time cannot be read is shown only where none of its circuit can be.
pub proof fn law_newest_is_shown(records: Seq<Record>, places: Seq<usize>, i: int, j: int)
    requires
        selects(records, all_millis(records), places),
        prefers_readable(records, places),
        0 <= i < places.len(),
        0 <= j < records.len(),
        records[j].circuit@ == records[places[i] as int].circuit@,
    ensures
        match (
            rfc3339_millis(records[places[i] as int].timestamp@),
            rfc3339_millis(records[j].timestamp@),
        ) {
            (Some(shown), Some(other)) => other <= shown && (other == shown ==> places[i] <= j),
            (Some(_), None) => true,
            (None, Some(_)) => false,
            (None, None) => places[i] <= j,
        },
{
    let millis = all_millis(records);
    law_newest_by_time(records, millis, places, i, j);
    assert(records[j].circuit@ == records[j].circuit@);
    assert(millis[j] == match rfc3339_millis(records[j].timestamp@) {
        Some(t) => t,
        None => i64::MIN,
    });
    let p = places[i] as int;
    assert(millis[p] == match rfc3339_millis(records[p].timestamp@) {
        Some(t) => t,
        None => i64::MIN,
    });
}

/// Every circuit is shown once, by ascending constraints; of two of one size, the one whose record
/// was met first comes first.
pub proof fn law_every_circuit_is_shown_in_order(
    records: Seq<Record>,
    millis: Seq<i64>,
    places: Seq<usize>,
)
    requires
        records.len() == millis.len(),
        records.len() <= usize::MAX,
        selects(records, millis, places),
    ensures
        forall|k: int|
            0 <= k < records.len() ==> exists|i: int|
                0 <= i < places.len() && (#[trigger] records[k]).circuit@
                    == records[#[trigger] places[i] as int].circuit@,
        forall|i: int, j: int|
            0 <= i < j < places.len() ==> {
                let a = records[#[trigger] places[i] as int];
                let b = records[#[trigger] places[j] as int];
                &&& a.circuit@ != b.circuit@
                &&& a.constraints <= b.constraints
                &&& a.constraints == b.constraints ==> places[i] < places[j]
            },
{
    assert forall|k: int| 0 <= k < records.len() implies exists|i: int|
        0 <= i < places.len() && (#[trigger] records[k]).circuit@ == records[#[trigger] places[i] as int].circuit@ by {
        law_one_record_per_circuit(records, millis, places, k);
    }
    if records.len() > 0 {
        law_one_record_per_circuit(records, millis, places, 0);
    }
    assert forall|i: int, j: int| 0 <= i < j < places.len() implies {
        let a = records[#[trigger] places[i] as int];
        let b = records[#[trigger] places[j] as int];
        &&& a.circuit@ != b.circuit@
        &&& a.constraints <= b.constraints
        &&& a.constraints == b.constraints ==> places[i] < places[j]
    } by {
        assert(0 <= places[i] < records.len());
    }
}

/// What is said where there is nothing to show, where a file is passed over, and once the report
/// is open or could not be opened.
pub proof fn law_what_is_said(dir: Seq<char>, path: Seq<char>, cause: String, record: Record)
    ensures
        nothing_found(dir) == "no measurement JSON found in "@ + dir
            + " (run `zkbench run` or `compare` first)"@,
        skip_text(path, Content::Unreadable { cause }) == Some(
            "warning: skipping "@ + path + " ("@ + cause@ + ")"@,
        ),
        skip_text(path, Content::Foreign) == Some("warning: skipping unparseable "@ + path),
        skip_text(path, Content::Parsed { record }) is None,
        opening_text(Ok(()), path) == "opening in browser..."@,
        opening_text(Err(cause@), path) == "warning: could not open the report automatically ("@
            + cause@ + "); open "@ + path + " manually"@,
{
}

/// The Windows path is what `wslpath` printed, without the white space around it; where it failed
/// or could not be run, that is what is said.
pub proof fn law_windows_path(run: ToolRun, r: Result<String, String>)
    requires
        translates(run, r),
    ensures
        match run {
            ToolRun::NotStarted { cause } => r matches Err(e) && e@
                == "failed to run wslpath (is this really WSL?)"@ + ": "@ + cause@,
            ToolRun::Exited { success: true, stdout, .. } => r matches Ok(p) && p@ == trim(
                lossy_text(stdout@),
            ),
            ToolRun::Exited { success: false, stderr, .. } => r matches Err(e) && e@
                == "wslpath failed: "@ + trim(lossy_text(stderr@)),
        },
{
}

} // verus!

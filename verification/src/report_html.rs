//! The HTML report: which of the accumulated results it shows, and how it is opened.
use crate::circuit::{chain, chained};
use crate::order::{goes_before, stable_order};
use crate::pipeline::Outcome;
use crate::report::{persists, BenchResult};
use crate::text::{contains, occurs, trim};
use crate::tools::{lossy_text, output_text, ToolRun};
use vstd::prelude::*;

verus! {

/// A result that was read. Its memory figures are no integers; they stay with the reader, who
/// finds them again by the place of the record.
#[derive(Debug)]
pub struct Record {
    pub circuit: String,
    pub backend: String,
    /// When it was measured, in RFC 3339.
    pub timestamp: String,
    pub repeats: usize,
    pub samples_used: usize,
    pub nargo_version: String,
    pub bb_version: String,
    pub constraints: u64,
    pub acir_opcodes: u64,
    pub witness_time_ms: u64,
    pub prove_time_ms: u64,
}

/// What was found in a file of the results directory.
#[derive(Debug)]
pub enum Content {
    /// The file could not be read.
    Unreadable { cause: String },
    /// The file is not a benchmark result, or is one of an old or foreign shape.
    Foreign,
    /// A result.
    Parsed { record: Record },
}

/// Why a file is passed over, if it is.
pub open spec fn skip_text(path: Seq<char>, content: Content) -> Option<Seq<char>> {
    match content {
        Content::Unreadable { cause } => Some(
            "warning: skipping "@ + path + " ("@ + cause@ + ")"@,
        ),
        Content::Foreign => Some("warning: skipping unparseable "@ + path),
        Content::Parsed { .. } => None,
    }
}

/// The warning that a file is passed over. One file that is of no use does not spoil the report.
pub fn skip_warning(path: &str, content: &Content) -> (r: Option<String>)
    ensures
        match skip_text(path@, *content) {
            Some(t) => r matches Some(w) && w@ == t,
            None => r is None,
        },
{
    match content {
        Content::Unreadable { cause } => {
            let mut w = String::from_str("warning: skipping ");
            w.append(path);
            w.append(" (");
            w.append(cause);
            w.append(")");
            Some(w)
        },
        Content::Foreign => Some(String::from_str("warning: skipping unparseable ").concat(path)),
        Content::Parsed { .. } => None,
    }
}

/// The time that `DateTime::parse_from_rfc3339` reads in a text, in milliseconds since the epoch.
pub uninterp spec fn rfc3339_millis(s: Seq<char>) -> Option<i64>;

/// `chrono::DateTime::parse_from_rfc3339`, and `timestamp_millis` of what it reads. What it reads
/// depends on the text alone; no time that it reads comes near the limits of 64 bits.
#[verifier::external_body]
fn read_rfc3339(s: &str) -> (r: Option<i64>)
    ensures
        r == rfc3339_millis(s@),
        r matches Some(t) ==> t > i64::MIN,
{
    chrono::DateTime::parse_from_rfc3339(s).ok().map(|t| t.timestamp_millis())
}

/// A timestamp in milliseconds since the epoch; one that cannot be read is the oldest.
pub open spec fn timestamp_millis(s: Seq<char>) -> i64 {
    match rfc3339_millis(s) {
        Some(t) => t,
        None => i64::MIN,
    }
}

/// Parses an RFC 3339 timestamp to epoch millis for ordering; unparseable
/// timestamps sort oldest so a valid one always wins.
pub fn parse_timestamp_millis(s: &str) -> (r: i64)
    ensures
        r == timestamp_millis(s@),
        r == match rfc3339_millis(s@) {
            Some(t) => t,
            None => i64::MIN,
        },
        rfc3339_millis(s@) is Some <==> r > i64::MIN,
{
    match read_rfc3339(s) {
        Some(t) => t,
        None => i64::MIN,
    }
}

/// The timestamps of records in milliseconds.
pub open spec fn all_millis(records: Seq<Record>) -> Seq<i64> {
    records.map_values(|r: Record| timestamp_millis(r.timestamp@))
}

/// Whether record `j` takes the place of record `i`: it is of the same circuit and newer, or as
/// new and met first.
pub open spec fn supersedes(records: Seq<Record>, millis: Seq<i64>, j: int, i: int) -> bool {
    records[j].circuit@ == records[i].circuit@ && (millis[j] > millis[i] || (millis[j] == millis[i]
        && j < i))
}

/// Whether a record is the newest of its circuit.
pub open spec fn is_latest(records: Seq<Record>, millis: Seq<i64>, i: int) -> bool {
    forall|j: int| 0 <= j < records.len() ==> !supersedes(records, millis, j, i)
}

/// Whether `r` lists the newest record of each circuit, in ascending order of constraints; of two
/// circuits of one size, the one whose record was met first comes first.
pub open spec fn selects(records: Seq<Record>, millis: Seq<i64>, r: Seq<usize>) -> bool {
    &&& forall|i: int|
        0 <= i < r.len() ==> 0 <= #[trigger] r[i] < records.len() && is_latest(
            records,
            millis,
            r[i] as int,
        )
    &&& forall|k: int|
        0 <= k < records.len() && is_latest(records, millis, k) ==> #[trigger] r.contains(k as usize)
    &&& forall|i: int, j: int|
        #![trigger r[i], r[j]]
        0 <= i < j < r.len() ==> {
            let a = records[r[i] as int].constraints;
            let b = records[r[j] as int].constraints;
            a < b || (a == b && r[i] < r[j])
        }
}

/// Whether a record with a timestamp that cannot be read is listed only where its circuit has no
/// other kind.
pub open spec fn prefers_readable(records: Seq<Record>, r: Seq<usize>) -> bool {
    forall|i: int, j: int|
        #![trigger r[i], records[j]]
        0 <= i < r.len() && 0 <= j < records.len() && records[j].circuit@
            == records[r[i] as int].circuit@ && rfc3339_millis(
            records[r[i] as int].timestamp@,
        ) is None ==> rfc3339_millis(records[j].timestamp@) is None
}

fn latest(records: &Vec<Record>, millis: &Vec<i64>, i: usize) -> (r: bool)
    requires
        records@.len() == millis@.len(),
        i < records@.len(),
    ensures
        r == is_latest(records@, millis@, i as int),
{
    let mut j: usize = 0;
    while j < records.len()
        invariant
            j <= records.len(),
            records@.len() == millis@.len(),
            i < records@.len(),
            forall|k: int| 0 <= k < j ==> !supersedes(records@, millis@, k, i as int),
        decreases records.len() - j,
    {
        if records[j].circuit == records[i].circuit && (millis[j] > millis[i] || (millis[j]
            == millis[i] && j < i)) {
            assert(supersedes(records@, millis@, j as int, i as int));
            return false;
        }
        j = j + 1;
    }
    true
}

/// The newest record of each circuit, by the given timestamps, in ascending order of constraints.
pub fn select_latest(records: &Vec<Record>, millis: &Vec<i64>) -> (r: Vec<usize>)
    requires
        records@.len() == millis@.len(),
    ensures
        selects(records@, millis@, r@),
{
    let mut found: Vec<usize> = Vec::new();
    let mut keys: Vec<u128> = Vec::new();
    let mut i: usize = 0;
    while i < records.len()
        invariant
            i <= records.len(),
            records@.len() == millis@.len(),
            found@.len() == keys@.len(),
            forall|k: int|
                0 <= k < found@.len() ==> 0 <= #[trigger] found@[k] < i && is_latest(
                    records@,
                    millis@,
                    found@[k] as int,
                ) && keys@[k] == records@[found@[k] as int].constraints,
            forall|k: int, l: int| 0 <= k < l < found@.len() ==> found@[k] < found@[l],
            forall|k: int|
                0 <= k < i && is_latest(records@, millis@, k) ==> #[trigger] found@.contains(
                    k as usize,
                ),
        decreases records.len() - i,
    {
        let ghost before = found@;
        if latest(records, millis, i) {
            found.push(i);
            keys.push(records[i].constraints as u128);
            assert(found@[before.len() as int] == i);
        }
        proof {
            assert forall|k: int|
                0 <= k < i + 1 && is_latest(records@, millis@, k) implies #[trigger] found@.contains(
                k as usize,
            ) by {
                if k < i {
                    assert(before.contains(k as usize));
                    let p = choose|p: int| 0 <= p < before.len() && before[p] == k as usize;
                    assert(found@[p] == k as usize);
                }
            }
        }
        i = i + 1;
    }
    let order = stable_order(&keys);
    let mut r: Vec<usize> = Vec::new();
    let mut i: usize = 0;
    while i < order.len()
        invariant
            i <= order.len(),
            order@.len() == found@.len(),
            forall|k: int| 0 <= k < order@.len() ==> 0 <= #[trigger] order@[k] < found@.len(),
            r@.len() == i,
            forall|k: int| 0 <= k < i ==> #[trigger] r@[k] == found@[order@[k] as int],
        decreases order.len() - i,
    {
        r.push(found[order[i]]);
        i = i + 1;
    }
    proof {
        assert forall|k: int|
            0 <= k < records@.len() && is_latest(records@, millis@, k) implies #[trigger] r@.contains(
            k as usize,
        ) by {
            assert(found@.contains(k as usize));
            let p = choose|p: int| 0 <= p < found@.len() && found@[p] == k as usize;
            assert(order@.contains(p as usize));
            let q = choose|q: int| 0 <= q < order@.len() && order@[q] == p as usize;
            assert(r@[q] == k as usize);
        }
        assert forall|a: int, b: int|
            #![trigger r@[a], r@[b]]
            0 <= a < b < r@.len() implies ({
            let x = records@[r@[a] as int].constraints;
            let y = records@[r@[b] as int].constraints;
            x < y || (x == y && r@[a] < r@[b])
        }) by {
            assert(goes_before(keys@, order@[a] as int, order@[b] as int));
        }
    }
    r
}

/// The records that the report shows, by their places: the newest of each circuit, in ascending
/// order of constraints. A record with a timestamp that cannot be read is shown only if its
/// circuit has no other kind.
pub fn select(records: &Vec<Record>) -> (r: Vec<usize>)
    ensures
        selects(records@, all_millis(records@), r@),
        prefers_readable(records@, r@),
{
    let mut millis: Vec<i64> = Vec::new();
    let mut i: usize = 0;
    while i < records.len()
        invariant
            i <= records.len(),
            millis@ == all_millis(records@.take(i as int)),
            forall|k: int|
                #![trigger records@[k]]
                0 <= k < i ==> (rfc3339_millis(records@[k].timestamp@) is Some <==> millis@[k]
                    > i64::MIN),
        decreases records.len() - i,
    {
        let t = parse_timestamp_millis(&records[i].timestamp);
        millis.push(t);
        assert(millis@ =~= all_millis(records@.take(i + 1)));
        i = i + 1;
    }
    assert(records@.take(i as int) == records@);
    let r = select_latest(records, &millis);
    proof {
        assert forall|i: int, j: int|
            #![trigger r@[i], records@[j]]
            0 <= i < r@.len() && 0 <= j < records@.len() && records@[j].circuit@
                == records@[r@[i] as int].circuit@ && rfc3339_millis(
                records@[r@[i] as int].timestamp@,
            ) is None implies rfc3339_millis(records@[j].timestamp@) is None by {
            assert(!supersedes(records@, millis@, j, r@[i] as int));
        }
    }
    r
}

/// Among the first `m` records, one of the circuit of record `k` is superseded by none.
proof fn lemma_latest_among(records: Seq<Record>, millis: Seq<i64>, k: int, m: int) -> (b: int)
    requires
        records.len() == millis.len(),
        0 <= k < records.len(),
        0 <= m <= records.len(),
    ensures
        0 <= b < records.len(),
        records[b].circuit@ == records[k].circuit@,
        forall|j: int| 0 <= j < m ==> !supersedes(records, millis, j, b),
    decreases m,
{
    if m == 0 {
        k
    } else {
        let b = lemma_latest_among(records, millis, k, m - 1);
        if supersedes(records, millis, m - 1, b) {
            let c = m - 1;
            assert forall|j: int| 0 <= j < m implies !supersedes(records, millis, j, c) by {
                if j < m - 1 {
                    assert(!supersedes(records, millis, j, b));
                }
            }
            m - 1
        } else {
            b
        }
    }
}

/// Each circuit is shown exactly once: of the records of one circuit one is selected, and no two.
pub proof fn law_one_record_per_circuit(
    records: Seq<Record>,
    millis: Seq<i64>,
    r: Seq<usize>,
    k: int,
)
    requires
        records.len() == millis.len(),
        records.len() <= usize::MAX,
        selects(records, millis, r),
        0 <= k < records.len(),
    ensures
        exists|i: int|
            0 <= i < r.len() && records[#[trigger] r[i] as int].circuit@ == records[k].circuit@,
        forall|i: int, j: int|
            0 <= i < r.len() && 0 <= j < r.len() && i != j ==> records[#[trigger] r[i] as int].circuit@
                != records[#[trigger] r[j] as int].circuit@,
{
    let b = lemma_latest_among(records, millis, k, records.len() as int);
    assert(is_latest(records, millis, b));
    assert(r.contains(b as usize));
    let p = choose|p: int| 0 <= p < r.len() && r[p] == b as usize;
    assert(records[r[p] as int].circuit@ == records[k].circuit@);
    assert forall|i: int, j: int|
        0 <= i < r.len() && 0 <= j < r.len() && i != j implies records[#[trigger] r[i] as int].circuit@
        != records[#[trigger] r[j] as int].circuit@ by {
        let a = r[i] as int;
        let c = r[j] as int;
        assert(a != c) by {
            if i < j {
                assert(r[i] < r[j] || records[a].constraints < records[c].constraints);
            } else {
                assert(r[j] < r[i] || records[c].constraints < records[a].constraints);
            }
        }
        assert(!supersedes(records, millis, a, c));
        assert(!supersedes(records, millis, c, a));
    }
}

/// Whether a record is what is read in the file of a result.
pub open spec fn restores(record: Record, r: BenchResult) -> bool {
    &&& record.circuit@ == r.circuit@
    &&& record.backend@ == r.backend@
    &&& record.timestamp@ == r.timestamp@
    &&& record.repeats == r.repeats
    &&& record.samples_used == r.samples_used
    &&& record.nargo_version@ == r.nargo_version@
    &&& record.bb_version@ == r.bb_version@
    &&& record.constraints == r.constraints
    &&& record.acir_opcodes == r.acir_opcodes
    &&& record.witness_time_ms == r.witness_time_ms
    &&& record.prove_time_ms == r.prove_time_ms
}

/// What is saved is shown: where the result of an outcome is all there is, the report shows its
/// record and nothing else, and the record tells what was measured and when.
pub proof fn law_saved_result_is_shown(
    o: Outcome,
    timestamp: Seq<char>,
    r: BenchResult,
    record: Record,
    places: Seq<usize>,
)
    requires
        persists(r, o, timestamp),
        restores(record, r),
        selects(seq![record], all_millis(seq![record]), places),
    ensures
        places == seq![0usize],
        record.circuit@ == o.circuit@,
        record.backend@ == o.backend@,
        record.timestamp@ == timestamp,
        record.repeats == o.repeats,
        record.samples_used == o.samples_used,
        record.nargo_version@ == o.nargo_version@,
        record.bb_version@ == o.bb_version@,
        record.constraints == o.constraints,
        record.acir_opcodes == o.acir_opcodes,
        record.witness_time_ms == o.witness.time_ms,
        record.prove_time_ms == o.prove.time_ms,
{
    let records = seq![record];
    assert(is_latest(records, all_millis(records), 0));
    assert(places.contains(0int as usize));
    if places.len() > 1 {
        assert(places[0] < 1 && places[1] < 1);
    }
}

/// The message where there is nothing to report on.
pub open spec fn nothing_found(dir: Seq<char>) -> Seq<char> {
    "no measurement JSON found in "@ + dir + " (run `zkbench run` or `compare` first)"@
}

/// The records that the report shows, or the message where there is none.
pub fn choose_records(records: &Vec<Record>, results_dir: &str) -> (r: Result<Vec<usize>, String>)
    ensures
        match r {
            Ok(places) => records@.len() > 0 && places@.len() > 0 && selects(
                records@,
                all_millis(records@),
                places@,
            ) && prefers_readable(records@, places@),
            Err(e) => records@.len() == 0 && e@ == nothing_found(results_dir@),
        },
{
    let count = records.len();
    let places = select(records);
    proof {
        if count > 0 {
            law_one_record_per_circuit(records@, all_millis(records@), places@, 0);
        }
    }
    if places.len() == 0 {
        let mut m = String::from_str("no measurement JSON found in ");
        m.append(results_dir);
        m.append(" (run `zkbench run` or `compare` first)");
        return Err(m);
    }
    assert(places@[0] < records@.len());
    Ok(places)
}

/// What is said once the report is open, or where it could not be opened.
pub open spec fn opening_text(opened: Result<(), Seq<char>>, path: Seq<char>) -> Seq<char> {
    match opened {
        Ok(_) => "opening in browser..."@,
        Err(cause) => "warning: could not open the report automatically ("@ + cause + "); open "@
            + path + " manually"@,
    }
}

/// What is said once the report is open, or where it could not be opened. By then the report is
/// written, so that a failure is only a warning.
pub fn opening_line(opened: &Result<(), String>, path: &str) -> (r: String)
    ensures
        r@ == opening_text(
            match *opened {
                Ok(_) => Ok(()),
                Err(cause) => Err(cause@),
            },
            path@,
        ),
{
    match opened {
        Ok(_) => String::from_str("opening in browser..."),
        Err(cause) => {
            let mut r = String::from_str("warning: could not open the report automatically (");
            r.append(cause);
            r.append("); open ");
            r.append(path);
            r.append(" manually");
            r
        },
    }
}

/// What `str::to_lowercase` makes of a text.
pub uninterp spec fn lowercase(s: Seq<char>) -> Seq<char>;

/// `str::to_lowercase`: the lowercase of a text depends on the text alone.
#[verifier::external_body]
fn to_lowercase(s: &str) -> (r: String)
    ensures
        r@ == lowercase(s@),
{
    s.to_lowercase()
}

/// Whether a lowercase kernel version is that of WSL.
pub fn is_wsl_version(lowered: &str) -> (r: bool)
    ensures
        r == occurs(lowered@, "microsoft"@),
{
    contains(lowered, "microsoft")
}

/// Detects WSL: the interop variables are the fast path; the kernel version is the fallback (it
/// contains "microsoft" under WSL).
pub fn is_wsl(distro_name: bool, interop: bool, version: Option<&str>) -> (r: bool)
    ensures
        r == (distro_name || interop || (version matches Some(v) && occurs(
            lowercase(v@),
            "microsoft"@,
        ))),
{
    if distro_name || interop {
        return true;
    }
    match version {
        Some(v) => is_wsl_version(&to_lowercase(v)),
        None => false,
    }
}

/// Whether `r` is the Windows path in what `wslpath` said, or why there is none.
pub open spec fn translates(run: ToolRun, r: Result<String, String>) -> bool {
    match run {
        ToolRun::NotStarted { cause } => r matches Err(e) && e@ == chained(
            "failed to run wslpath (is this really WSL?)"@,
            Some(cause@),
        ),
        ToolRun::Exited { success, stdout, stderr } => if success {
            r matches Ok(p) && p@ == trim(lossy_text(stdout@))
        } else {
            r matches Err(e) && e@ == "wslpath failed: "@ + trim(lossy_text(stderr@))
        },
    }
}

/// The Windows path of a file in the WSL filesystem, as `wslpath` gives it.
pub fn windows_path(run: &ToolRun) -> (r: Result<String, String>)
    ensures
        translates(*run, r),
{
    match run {
        ToolRun::NotStarted { cause } => Err(
            chain(String::from_str("failed to run wslpath (is this really WSL?)"), cause),
        ),
        ToolRun::Exited { success, stdout, stderr } => if *success {
            Ok(output_text(stdout.as_slice()))
        } else {
            Err(String::from_str("wslpath failed: ").concat(&output_text(stderr.as_slice())))
        },
    }
}

} // verus!

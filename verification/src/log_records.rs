//! The log records service's decisions: which file holds a container's log, how a request's
//! fields are read, and how records are sent out.
use vstd::prelude::*;

use crate::proto::{LogRecord as ProtoLogRecord, LogRecordsStreamRequest, Timestamp};
use crate::rgkl_integration::{FollowFromType, LogRecord, UtcTime};
use crate::log_file_name::{
    lemma_log_file_name_unambiguous, log_file_name_parts, parse_log_file_name,
};
use crate::text::{
    chars_of, contains, contains_seq, find_seq, occurs_at, str_eq, string_from_chars,
};

verus! {

// ----- Container ids -----

/// The separator between a container runtime's name and the id proper.
pub open spec fn runtime_separator() -> Seq<char> {
    seq![':', '/', '/']
}

/// `k` is where `needle` first occurs in `hay`.
pub open spec fn is_first_occurrence(hay: Seq<char>, needle: Seq<char>, k: int) -> bool {
    occurs_at(hay, needle, k) && forall|j: int| 0 <= j < k ==> !occurs_at(hay, needle, j)
}

/// A container id without its runtime prefix (`docker://`, `containerd://`, ...): what follows
/// the first `://`, or the whole id if it holds none.
pub open spec fn stripped_id(id: Seq<char>) -> Seq<char> {
    if contains_seq(id, runtime_separator()) {
        let k = choose|k: int| is_first_occurrence(id, runtime_separator(), k);
        id.skip(k + 3)
    } else {
        id
    }
}

proof fn lemma_first_occurrence_unique(hay: Seq<char>, needle: Seq<char>, k1: int, k2: int)
    requires
        is_first_occurrence(hay, needle, k1),
        is_first_occurrence(hay, needle, k2),
    ensures
        k1 == k2,
{
}

/// The container id without its runtime prefix.
pub fn strip_runtime_prefix(container_id: &str) -> (r: String)
    ensures
        r@ == stripped_id(container_id@),
{
    let v = chars_of(container_id);
    let sep = chars_of("://");
    proof {
        reveal_strlit("://");
        assert(sep@ =~= runtime_separator());
    }
    match find_seq(&v, &sep) {
        Some(k) => {
            proof {
                assert(is_first_occurrence(container_id@, runtime_separator(), k as int));
                let k2 = choose|k: int| is_first_occurrence(container_id@, runtime_separator(), k);
                lemma_first_occurrence_unique(container_id@, runtime_separator(), k as int, k2);
                assert(v@.subrange(k + 3, v@.len() as int) =~= container_id@.skip(k + 3));
            }
            let n = v.len();
            assert(k + 3 <= n);
            string_from_chars(&v.as_slice()[k + 3..n])
        },
        None => container_id.to_owned(),
    }
}

// ----- The file name of a container's log -----

/// `name` is the log file name of the container `container` of pod `pod` in namespace `ns`,
/// `{pod}_{ns}_{container}-{cid}.log`, where the id `cid` holds `id`.
pub open spec fn names_container_log(
    name: Seq<char>,
    ns: Seq<char>,
    pod: Seq<char>,
    container: Seq<char>,
    id: Seq<char>,
) -> bool {
    exists|cid: Seq<char>| #[trigger]
        log_file_name_parts(name, pod, ns, container, cid) && contains_seq(cid, id)
}

/// Whether `name` is the log file name of the given container, with an id that holds `id`.
pub fn is_container_log_name(
    name: &str,
    namespace: &str,
    pod_name: &str,
    container_name: &str,
    id: &Vec<char>,
) -> (r: bool)
    ensures
        r == names_container_log(name@, namespace@, pod_name@, container_name@, id@),
{
    match parse_log_file_name(name) {
        None => false,
        Some(f) => {
            let hit = str_eq(f.pod_name.as_str(), pod_name) && str_eq(
                f.namespace.as_str(),
                namespace,
            ) && str_eq(f.container_name.as_str(), container_name) && contains(
                &chars_of(f.container_id.as_str()),
                id,
            );
            proof {
                if !hit {
                    assert forall|cid: Seq<char>|
                        #[trigger] log_file_name_parts(
                            name@,
                            pod_name@,
                            namespace@,
                            container_name@,
                            cid,
                        ) implies !contains_seq(cid, id@) by {
                        lemma_log_file_name_unambiguous(
                            name@,
                            f.pod_name@,
                            f.namespace@,
                            f.container_name@,
                            f.container_id@,
                            pod_name@,
                            namespace@,
                            container_name@,
                            cid,
                        );
                    }
                }
            }
            hit
        },
    }
}

// ----- Finding the log file -----

/// A directory entry's file name (empty if it is not UTF-8) and path.
#[derive(Debug, Clone)]
pub struct DirEntryName {
    pub file_name: String,
    pub path: String,
}

/// Why no log file was found.
#[derive(Debug, Clone)]
pub enum FindLogFileError {
    /// The directory, or one of its entries, could not be read.
    ReadDir(String),
    /// No entry matches.
    NotFound { namespace: String, pod_name: String, container_name: String, container_id: String },
}

/// The container whose log file is searched for: namespace, pod, container, and the id (without
/// its runtime prefix) that the file's id must hold.
pub struct ContainerKey {
    pub ns: Seq<char>,
    pub pod: Seq<char>,
    pub container: Seq<char>,
    pub id: Seq<char>,
}

/// A readable entry whose name is the container's log file name.
pub open spec fn entry_hits(e: Result<DirEntryName, String>, key: ContainerKey) -> bool {
    match e {
        Ok(d) => names_container_log(d.file_name@, key.ns, key.pod, key.container, key.id),
        Err(_) => false,
    }
}

/// Searching the entries in order: the path of the first whose name is the container's log file
/// name; `Err(Some(e))` if an unreadable entry comes first; `Err(None)` if none is.
pub open spec fn search_entries(
    entries: Seq<Result<DirEntryName, String>>,
    key: ContainerKey,
) -> Result<Seq<char>, Option<Seq<char>>>
    decreases entries.len(),
{
    if entries.len() == 0 {
        Err(None)
    } else {
        match entries[0] {
            Err(e) => Err(Some(e@)),
            Ok(d) => if entry_hits(entries[0], key) {
                Ok(d.path@)
            } else {
                search_entries(entries.drop_first(), key)
            },
        }
    }
}

/// A found path belongs to the first entry whose name is the container's log file name; every
/// entry before it was readable and its name was not.
pub proof fn lemma_found_entry_is_first_match(
    entries: Seq<Result<DirEntryName, String>>,
    key: ContainerKey,
)
    requires
        search_entries(entries, key) is Ok,
    ensures
        exists|k: int|
            {
                &&& 0 <= k < entries.len()
                &&& entry_hits(#[trigger] entries[k], key)
                &&& entries[k]->Ok_0.path@ == search_entries(entries, key)->Ok_0
                &&& forall|j: int|
                    0 <= j < k ==> entries[j] is Ok && !entry_hits(entries[j], key)
            },
    decreases entries.len(),
{
    if entry_hits(entries[0], key) {
        assert(entry_hits(entries[0], key));
    } else {
        let rest = entries.drop_first();
        lemma_found_entry_is_first_match(rest, key);
        let k = choose|k: int|
            {
                &&& 0 <= k < rest.len()
                &&& entry_hits(#[trigger] rest[k], key)
                &&& rest[k]->Ok_0.path@ == search_entries(rest, key)->Ok_0
                &&& forall|j: int| 0 <= j < k ==> rest[j] is Ok && !entry_hits(rest[j], key)
            };
        assert(entries[k + 1] == rest[k]);
        assert forall|j: int| 0 <= j < k + 1 implies entries[j] is Ok && !entry_hits(entries[j], key) by {
            if j > 0 {
                assert(entries[j] == rest[j - 1]);
            }
        }
    }
}

/// A log file name is the given container's exactly when its pod, namespace and container fields
/// are the given ones and its id field holds the given id.
pub proof fn lemma_container_log_name_fields(
    name: Seq<char>,
    pod: Seq<char>,
    ns: Seq<char>,
    container: Seq<char>,
    cid: Seq<char>,
    want_ns: Seq<char>,
    want_pod: Seq<char>,
    want_container: Seq<char>,
    want_id: Seq<char>,
)
    requires
        log_file_name_parts(name, pod, ns, container, cid),
    ensures
        names_container_log(name, want_ns, want_pod, want_container, want_id) <==> (pod == want_pod
            && ns == want_ns && container == want_container && contains_seq(cid, want_id)),
{
    if names_container_log(name, want_ns, want_pod, want_container, want_id) {
        let c2 = choose|c2: Seq<char>|
            #[trigger] log_file_name_parts(name, want_pod, want_ns, want_container, c2)
                && contains_seq(c2, want_id);
        lemma_log_file_name_unambiguous(
            name,
            pod,
            ns,
            container,
            cid,
            want_pod,
            want_ns,
            want_container,
            c2,
        );
    }
    if pod == want_pod && ns == want_ns && container == want_container && contains_seq(
        cid,
        want_id,
    ) {
        assert(log_file_name_parts(name, want_pod, want_ns, want_container, cid));
    }
}

/// The search finds the first hit: when the entry at `k` is the container's log file and every
/// entry before it was readable and was not, the search gives that entry's path.
pub proof fn lemma_first_hit_is_found(
    entries: Seq<Result<DirEntryName, String>>,
    key: ContainerKey,
    k: int,
)
    requires
        0 <= k < entries.len(),
        entry_hits(entries[k], key),
        forall|j: int| 0 <= j < k ==> entries[j] is Ok && !entry_hits(#[trigger] entries[j], key),
    ensures
        search_entries(entries, key) == Ok::<Seq<char>, Option<Seq<char>>>(
            entries[k]->Ok_0.path@,
        ),
    decreases k,
{
    if k > 0 {
        let rest = entries.drop_first();
        assert(entries[0] is Ok && !entry_hits(entries[0], key));
        assert forall|j: int| 0 <= j < k - 1 implies rest[j] is Ok && !entry_hits(
            #[trigger] rest[j],
            key,
        ) by {
            assert(rest[j] == entries[j + 1]);
        }
        assert(rest[k - 1] == entries[k]);
        lemma_first_hit_is_found(rest, key, k - 1);
    }
}

/// An unreadable entry before any hit ends the search with its error; with no hit and no
/// unreadable entry, the search finds nothing.
pub proof fn lemma_search_failures(entries: Seq<Result<DirEntryName, String>>, key: ContainerKey)
    ensures
        (forall|j: int| 0 <= j < entries.len() ==> (#[trigger] entries[j]) is Ok && !entry_hits(
            entries[j],
            key,
        )) ==> search_entries(entries, key) == Err::<Seq<char>, Option<Seq<char>>>(None),
        forall|k: int|
            0 <= k < entries.len() && (#[trigger] entries[k]) is Err && (forall|j: int|
                0 <= j < k ==> entries[j] is Ok && !entry_hits(#[trigger] entries[j], key))
                ==> search_entries(entries, key) == Err::<Seq<char>, Option<Seq<char>>>(
                Some(entries[k]->Err_0@),
            ),
    decreases entries.len(),
{
    if entries.len() > 0 {
        let rest = entries.drop_first();
        lemma_search_failures(rest, key);
        assert forall|j: int| 0 <= j < rest.len() implies rest[j] == entries[j + 1] by {}
        if forall|j: int| 0 <= j < entries.len() ==> (#[trigger] entries[j]) is Ok && !entry_hits(
            entries[j],
            key,
        ) {
            assert(entries[0] is Ok);
            assert forall|j: int| 0 <= j < rest.len() implies (#[trigger] rest[j]) is Ok
                && !entry_hits(rest[j], key) by {
                assert(rest[j] == entries[j + 1]);
            }
        }
        assert forall|k: int|
            0 <= k < entries.len() && (#[trigger] entries[k]) is Err && (forall|j: int|
                0 <= j < k ==> entries[j] is Ok && !entry_hits(#[trigger] entries[j], key))
                implies search_entries(entries, key) == Err::<Seq<char>, Option<Seq<char>>>(
            Some(entries[k]->Err_0@),
        ) by {
            if k > 0 {
                assert(entries[0] is Ok && !entry_hits(entries[0], key));
                assert(rest[k - 1] == entries[k]);
                assert forall|j: int| 0 <= j < k - 1 implies rest[j] is Ok && !entry_hits(
                    #[trigger] rest[j],
                    key,
                ) by {
                    assert(rest[j] == entries[j + 1]);
                }
            }
        }
    }
}

/// What a search for a container's log file gives: the directory listing must be readable, then
/// the entries are searched for the container's log file name.
pub open spec fn log_file_search(
    listing: Result<Vec<Result<DirEntryName, String>>, String>,
    ns: Seq<char>,
    pod: Seq<char>,
    container: Seq<char>,
    id: Seq<char>,
) -> Result<Seq<char>, FindErrorView> {
    let key = ContainerKey { ns, pod, container, id: stripped_id(id) };
    match listing {
        Err(e) => Err(FindErrorView::ReadDir(e@)),
        Ok(entries) => match search_entries(entries@, key) {
            Ok(p) => Ok(p),
            Err(Some(e)) => Err(FindErrorView::ReadDir(e)),
            Err(None) => Err(
                FindErrorView::NotFound {
                    namespace: ns,
                    pod_name: pod,
                    container_name: container,
                    container_id: stripped_id(id),
                },
            ),
        },
    }
}

pub enum FindErrorView {
    ReadDir(Seq<char>),
    NotFound {
        namespace: Seq<char>,
        pod_name: Seq<char>,
        container_name: Seq<char>,
        container_id: Seq<char>,
    },
}

/// The view of a search error.
pub open spec fn find_error_view(e: FindLogFileError) -> FindErrorView {
    match e {
        FindLogFileError::ReadDir(m) => FindErrorView::ReadDir(m@),
        FindLogFileError::NotFound { namespace, pod_name, container_name, container_id } =>
            FindErrorView::NotFound {
            namespace: namespace@,
            pod_name: pod_name@,
            container_name: container_name@,
            container_id: container_id@,
        },
    }
}

/// The path of a container's log file among the directory entries: the first entry whose name
/// is `{pod}_{namespace}_{container}-{id}.log` with an id that holds the container id (without
/// its runtime prefix).
pub fn find_log_file(
    listing: &Result<Vec<Result<DirEntryName, String>>, String>,
    namespace: &str,
    pod_name: &str,
    container_name: &str,
    container_id: &str,
) -> (r: Result<String, FindLogFileError>)
    ensures
        r matches Ok(p) ==> log_file_search(
            *listing,
            namespace@,
            pod_name@,
            container_name@,
            container_id@,
        ) == Ok::<Seq<char>, FindErrorView>(p@),
        r matches Err(e) ==> log_file_search(
            *listing,
            namespace@,
            pod_name@,
            container_name@,
            container_id@,
        ) == Err::<Seq<char>, FindErrorView>(find_error_view(e)),
{
    let stripped = strip_runtime_prefix(container_id);
    let entries = match listing {
        Ok(entries) => entries,
        Err(e) => {
            return Err(FindLogFileError::ReadDir(e.clone()));
        },
    };
    let id_chars = chars_of(stripped.as_str());
    let ghost key = ContainerKey {
        ns: namespace@,
        pod: pod_name@,
        container: container_name@,
        id: stripped@,
    };
    assert(entries@.skip(0) =~= entries@);
    for i in 0..entries.len()
        invariant
            stripped@ == stripped_id(container_id@),
            *listing == Ok::<Vec<Result<DirEntryName, String>>, String>(*entries),
            key == (ContainerKey {
                ns: namespace@,
                pod: pod_name@,
                container: container_name@,
                id: stripped@,
            }),
            id_chars@ == stripped@,
            search_entries(entries@, key) == search_entries(entries@.skip(i as int), key),
    {
        proof {
            assert(entries@.skip(i as int)[0] == entries@[i as int]);
            assert(entries@.skip(i as int).drop_first() =~= entries@.skip(i + 1));
        }
        match &entries[i] {
            Err(e) => {
                return Err(FindLogFileError::ReadDir(e.clone()));
            },
            Ok(d) => {
                if is_container_log_name(
                    d.file_name.as_str(),
                    namespace,
                    pod_name,
                    container_name,
                    &id_chars,
                ) {
                    return Ok(d.path.clone());
                }
            },
        }
    }
    assert(entries@.skip(entries@.len() as int) =~= Seq::<Result<DirEntryName, String>>::empty());
    Err(
        FindLogFileError::NotFound {
            namespace: namespace.to_owned(),
            pod_name: pod_name.to_owned(),
            container_name: container_name.to_owned(),
            container_id: stripped,
        },
    )
}

// ----- Request fields -----

/// The follow mode that a request's number names: 1 is `Default`, 2 is `End`, and 0 or any
/// number the protocol does not know is `Noop`.
pub open spec fn follow_from_code(code: i32) -> FollowFromType {
    if code == 1 {
        FollowFromType::Default
    } else if code == 2 {
        FollowFromType::End
    } else {
        FollowFromType::Noop
    }
}

/// The follow mode that a request's number names.
pub fn convert_follow_from(code: i32) -> (r: FollowFromType)
    ensures
        r == follow_from_code(code),
{
    if code == 1 {
        FollowFromType::Default
    } else if code == 2 {
        FollowFromType::End
    } else {
        FollowFromType::Noop
    }
}

/// The record as the service sends it: seconds and nanoseconds of its time, and its message.
pub fn convert_log_record(record: LogRecord) -> (r: ProtoLogRecord)
    ensures
        r.message@ == record.message@,
        record.timestamp is None ==> r.timestamp is None,
        record.timestamp matches Some(t) ==> r.timestamp == Some(
            Timestamp { seconds: t.seconds, nanos: t.nanos as i32 },
        ),
{
    let timestamp = match record.timestamp {
        Some(t) => Some(Timestamp { seconds: t.seconds, nanos: t.nanos as i32 }),
        None => None,
    };
    ProtoLogRecord { timestamp, message: record.message }
}

/// The UTC instant (seconds, nanoseconds) that `DateTime<Utc>`'s `FromStr` reads from a text;
/// `None` when it reads none.
pub uninterp spec fn utc_datetime_of(text: Seq<char>) -> Option<(i64, u32)>;

/// Calls `str::parse::<chrono::DateTime<chrono::Utc>>` and reads the instant back with
/// `timestamp` and `timestamp_subsec_nanos`. The contract names the result; the error message
/// is not stated.
#[verifier::external_body]
fn parse_utc_datetime(text: &str) -> (r: Result<UtcTime, String>)
    ensures
        r is Ok == utc_datetime_of(text@) is Some,
        r matches Ok(t) ==> utc_datetime_of(text@) == Some((t.seconds, t.nanos)),
{
    match text.parse::<chrono::DateTime<chrono::Utc>>() {
        Ok(dt) => Ok(UtcTime { seconds: dt.timestamp(), nanos: dt.timestamp_subsec_nanos() }),
        Err(e) => Err(e.to_string()),
    }
}

/// A time bound of a request: none if the field is empty, else the instant it reads.
pub open spec fn time_bound(text: Seq<char>) -> Result<Option<UtcTime>, ()> {
    if text.len() == 0 {
        Ok(None)
    } else {
        match utc_datetime_of(text) {
            Some(p) => Ok(Some(UtcTime { seconds: p.0, nanos: p.1 })),
            None => Err(()),
        }
    }
}

/// A time bound of a request; the error is the reason the text does not read as a time.
pub fn parse_time_bound(text: &str) -> (r: Result<Option<UtcTime>, String>)
    ensures
        r is Ok == time_bound(text@) is Ok,
        r matches Ok(t) ==> time_bound(text@) == Ok::<Option<UtcTime>, ()>(t),
{
    if text.is_empty() {
        return Ok(None);
    }
    match parse_utc_datetime(text) {
        Ok(t) => Ok(Some(t)),
        Err(e) => Err(e),
    }
}

/// What a stream request comes to: the log file, the time bounds, the search text and the
/// follow mode.
#[derive(Debug, Clone)]
pub struct StreamPlan {
    pub file_path: String,
    pub start_time: Option<UtcTime>,
    pub stop_time: Option<UtcTime>,
    pub grep: String,
    pub follow_from: FollowFromType,
}

/// Why a stream request was refused after its permission check.
#[derive(Debug, Clone)]
pub enum StreamError {
    FindLogFile(FindLogFileError),
    InvalidStartTime(String),
    InvalidStopTime(String),
}

/// Reads a stream request, in the order the service checks it: the log file, then the start
/// time, then the stop time.
pub fn plan_log_stream(
    request: &LogRecordsStreamRequest,
    listing: &Result<Vec<Result<DirEntryName, String>>, String>,
) -> (r: Result<StreamPlan, StreamError>)
    ensures
        ({
            let search = log_file_search(
                *listing,
                request.namespace@,
                request.pod_name@,
                request.container_name@,
                request.container_id@,
            );
            &&& r matches Ok(plan) ==> {
                &&& search == Ok::<Seq<char>, FindErrorView>(plan.file_path@)
                &&& time_bound(request.start_time@) == Ok::<Option<UtcTime>, ()>(plan.start_time)
                &&& time_bound(request.stop_time@) == Ok::<Option<UtcTime>, ()>(plan.stop_time)
                &&& plan.grep@ == request.grep@
                &&& plan.follow_from == follow_from_code(request.follow_from)
            }
            &&& r matches Err(StreamError::FindLogFile(e)) ==> search == Err::<
                Seq<char>,
                FindErrorView,
            >(find_error_view(e))
            &&& r matches Err(StreamError::InvalidStartTime(_)) ==> search is Ok && time_bound(
                request.start_time@,
            ) is Err
            &&& r matches Err(StreamError::InvalidStopTime(_)) ==> search is Ok && time_bound(
                request.start_time@,
            ) is Ok && time_bound(request.stop_time@) is Err
        }),
{
    let file_path = match find_log_file(
        listing,
        request.namespace.as_str(),
        request.pod_name.as_str(),
        request.container_name.as_str(),
        request.container_id.as_str(),
    ) {
        Ok(p) => p,
        Err(e) => {
            return Err(StreamError::FindLogFile(e));
        },
    };
    let start_time = match parse_time_bound(request.start_time.as_str()) {
        Ok(t) => t,
        Err(e) => {
            return Err(StreamError::InvalidStartTime(e));
        },
    };
    let stop_time = match parse_time_bound(request.stop_time.as_str()) {
        Ok(t) => t,
        Err(e) => {
            return Err(StreamError::InvalidStopTime(e));
        },
    };
    Ok(
        StreamPlan {
            file_path,
            start_time,
            stop_time,
            grep: request.grep.clone(),
            follow_from: convert_follow_from(request.follow_from),
        },
    )
}

} // verus!

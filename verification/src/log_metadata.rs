//! The log metadata service's decisions: the metadata of one log file, the list for a request,
//! and the watch event for a log file event.
use vstd::prelude::*;

use crate::file_watcher::{
    is_log_path, log_file_event_for, log_path, namespace_allowed, FsEventKind, namespace_is_allowed, strings_view, LogFileEvent,
    LogFileEventType,
};
use crate::kubernetes::{
    answer_allows, asked_in_check, lemma_granted_check_reviewed_every_namespace, run_check,
    skips_check, ReviewAnswerView, StepView,
};
use crate::log_file_name::{
    file_name_of, is_log_file_name, lemma_log_file_name_unambiguous, log_file_name_parts,
    has_log_extension, log_suffix, parse_log_file_name, path_file_name,
};
use crate::proto::{
    metadata_view, LogMetadata, LogMetadataFileInfo, LogMetadataSpec, LogMetadataSpecView,
    LogMetadataView, LogMetadataWatchEvent, LogMetadataWatchEventView, Timestamp,
};

verus! {

/// The node name the metadata carries: the `NODE_NAME` environment value, or `unknown`.
pub fn node_name_or_unknown(env_node_name: Option<String>) -> (r: String)
    ensures
        env_node_name matches Some(n) ==> r@ == n@,
        env_node_name is None ==> r@ == "unknown"@,
{
    match env_node_name {
        Some(n) => n,
        None => String::from_str("unknown"),
    }
}

/// What the file system says of a file: its size in bytes and the whole seconds from the Unix
/// epoch to its last modification.
#[derive(Debug, Clone, Copy, PartialEq, Eq, Structural)]
pub struct FileStat {
    pub size: u64,
    pub modified_secs: u64,
}

/// A directory entry: its path, and its file status or why it could not be read.
pub struct ScannedEntry {
    pub path: String,
    pub stat: Result<FileStat, String>,
}

/// Why no metadata could be made for a file.
#[derive(Debug, Clone)]
pub enum MetadataError {
    /// The path has no file name.
    InvalidFileName,
    /// The file name does not follow the log file name grammar.
    UnexpectedFileName,
    /// The file status could not be read.
    Unreadable(String),
}

/// The metadata of the log file at `path` with status `stat`: the fields its name carries, its
/// size, and its modification time in whole seconds. `None` when the file name does not follow
/// the grammar or the status could not be read.
pub open spec fn metadata_for(node: Seq<char>, path: Seq<char>, stat: Result<FileStat, String>) -> Option<
    LogMetadataView,
> {
    match path_file_name(path) {
        None => None,
        Some(name) => {
            if !is_log_file_name(name) {
                None
            } else {
                let (pod, ns, container, id) = choose|
                    pod: Seq<char>,
                    ns: Seq<char>,
                    container: Seq<char>,
                    id: Seq<char>,
                | log_file_name_parts(name, pod, ns, container, id);
                match stat {
                    Err(_) => None,
                    Ok(st) => Some(
                        LogMetadataView {
                            id,
                            spec: Some(
                                LogMetadataSpecView {
                                    node_name: node,
                                    namespace: ns,
                                    pod_name: pod,
                                    container_name: container,
                                    container_id: id,
                                },
                            ),
                            file_info: Some(
                                LogMetadataFileInfo {
                                    size: st.size as i64,
                                    last_modified_at: Some(
                                        Timestamp { seconds: st.modified_secs as i64, nanos: 0 },
                                    ),
                                },
                            ),
                        },
                    ),
                }
            }
        },
    }
}

/// The metadata of the log file at `path`, given its status.
pub fn create_log_metadata(node_name: &str, path: &str, stat: &Result<FileStat, String>) -> (r: Result<
    LogMetadata,
    MetadataError,
>)
    ensures
        r matches Ok(m) ==> metadata_for(node_name@, path@, *stat) == Some(m@),
        r is Err ==> metadata_for(node_name@, path@, *stat) is None,
        r matches Err(MetadataError::InvalidFileName) ==> path_file_name(path@) is None,
        r matches Err(MetadataError::UnexpectedFileName) ==> path_file_name(path@) matches Some(n)
            && !is_log_file_name(n),
        r matches Err(MetadataError::Unreadable(e)) ==> *stat == Err::<FileStat, String>(e),
{
    let name = match file_name_of(path) {
        Some(n) => n,
        None => {
            return Err(MetadataError::InvalidFileName);
        },
    };
    let parsed = match parse_log_file_name(name.as_str()) {
        Some(p) => p,
        None => {
            return Err(MetadataError::UnexpectedFileName);
        },
    };
    proof {
        let (pod, ns, container, id) = choose|
            pod: Seq<char>,
            ns: Seq<char>,
            container: Seq<char>,
            id: Seq<char>,
        | log_file_name_parts(name@, pod, ns, container, id);
        lemma_log_file_name_unambiguous(
            name@,
            pod,
            ns,
            container,
            id,
            parsed.pod_name@,
            parsed.namespace@,
            parsed.container_name@,
            parsed.container_id@,
        );
    }
    let st = match stat {
        Ok(st) => *st,
        Err(e) => {
            return Err(MetadataError::Unreadable(e.clone()));
        },
    };
    let file_info = LogMetadataFileInfo {
        size: st.size as i64,
        last_modified_at: Some(Timestamp { seconds: st.modified_secs as i64, nanos: 0 }),
    };
    let spec = LogMetadataSpec {
        node_name: node_name.to_owned(),
        namespace: parsed.namespace,
        pod_name: parsed.pod_name,
        container_name: parsed.container_name,
        container_id: parsed.container_id.clone(),
    };
    Ok(LogMetadata { id: parsed.container_id, spec: Some(spec), file_info: Some(file_info) })
}

/// The metadata listed for a request on `requested` namespaces, from the directory entries in
/// order: `.log` files whose metadata could be made and whose namespace passes the filter.
pub open spec fn listed(node: Seq<char>, requested: Seq<Seq<char>>, entries: Seq<ScannedEntry>) -> Seq<
    LogMetadataView,
>
    decreases entries.len(),
{
    if entries.len() == 0 {
        Seq::empty()
    } else {
        let rest = listed(node, requested, entries.drop_last());
        let e = entries.last();
        if !is_log_path(e.path@) {
            rest
        } else {
            match metadata_for(node, e.path@, e.stat) {
                Some(m) => if namespace_allowed(requested, m.spec->0.namespace) {
                    rest.push(m)
                } else {
                    rest
                },
                None => rest,
            }
        }
    }
}

/// The metadata of a log file: its id, its name's fields with the node, and its size and
/// modification time.
pub open spec fn metadata_of_parts(
    node: Seq<char>,
    pod: Seq<char>,
    ns: Seq<char>,
    container: Seq<char>,
    id: Seq<char>,
    st: FileStat,
) -> LogMetadataView {
    LogMetadataView {
        id,
        spec: Some(
            LogMetadataSpecView {
                node_name: node,
                namespace: ns,
                pod_name: pod,
                container_name: container,
                container_id: id,
            },
        ),
        file_info: Some(
            LogMetadataFileInfo {
                size: st.size as i64,
                last_modified_at: Some(Timestamp { seconds: st.modified_secs as i64, nanos: 0 }),
            },
        ),
    }
}

/// The listing leaves no log file out: an entry whose file name is a container log file name,
/// whose status could be read and whose namespace passes the filter adds its metadata, after those
/// of the entries before it, whatever its size.
pub proof fn lemma_listing_keeps_each_log_file(
    node: Seq<char>,
    requested: Seq<Seq<char>>,
    entries: Seq<ScannedEntry>,
    e: ScannedEntry,
    name: Seq<char>,
    pod: Seq<char>,
    ns: Seq<char>,
    container: Seq<char>,
    id: Seq<char>,
    st: FileStat,
)
    requires
        path_file_name(e.path@) == Some(name),
        log_file_name_parts(name, pod, ns, container, id),
        e.stat == Ok::<FileStat, String>(st),
        namespace_allowed(requested, ns),
    ensures
        listed(node, requested, entries.push(e)) == listed(node, requested, entries).push(
            metadata_of_parts(node, pod, ns, container, id, st),
        ),
{
    let all = entries.push(e);
    assert(all.drop_last() =~= entries);
    assert(all.last() == e);
    let n = name.len() as int;
    assert(name.skip(n - 4) =~= log_suffix()) by {
        let body = pod + seq!['_'] + ns + seq!['_'] + container + seq!['-'] + id;
        assert(name == body + log_suffix());
        assert forall|j: int| 0 <= j < 4 implies name.skip(n - 4)[j] == log_suffix()[j] by {
            assert(name[n - 4 + j] == (body + log_suffix())[body.len() + j]);
        }
    }
    assert(has_log_extension(name));
    let (p2, n2, c2, i2) = choose|
        pod: Seq<char>,
        ns: Seq<char>,
        container: Seq<char>,
        id: Seq<char>,
    | log_file_name_parts(name, pod, ns, container, id);
    lemma_log_file_name_unambiguous(name, pod, ns, container, id, p2, n2, c2, i2);
}

/// An entry that is not a `.log` path, whose metadata cannot be made, or whose namespace the
/// filter refuses adds nothing to the listing.
pub proof fn lemma_listing_skips_other_entries(
    node: Seq<char>,
    requested: Seq<Seq<char>>,
    entries: Seq<ScannedEntry>,
    e: ScannedEntry,
)
    requires
        !is_log_path(e.path@) || metadata_for(node, e.path@, e.stat) is None || !namespace_allowed(
            requested,
            metadata_for(node, e.path@, e.stat)->0.spec->0.namespace,
        ),
    ensures
        listed(node, requested, entries.push(e)) == listed(node, requested, entries),
{
    let all = entries.push(e);
    assert(all.drop_last() =~= entries);
    assert(all.last() == e);
}

/// Every listed item comes with a spec whose namespace passes the request's filter, and with
/// file information.
pub proof fn lemma_listed_items_pass_filter(
    node: Seq<char>,
    requested: Seq<Seq<char>>,
    entries: Seq<ScannedEntry>,
)
    ensures
        forall|k: int|
            0 <= k < listed(node, requested, entries).len() ==> {
                let m = #[trigger] listed(node, requested, entries)[k];
                &&& m.spec is Some
                &&& namespace_allowed(requested, m.spec->0.namespace)
                &&& m.file_info is Some
                &&& m.spec->0.node_name == node
            },
    decreases entries.len(),
{
    if entries.len() > 0 {
        lemma_listed_items_pass_filter(node, requested, entries.drop_last());
        let rest = listed(node, requested, entries.drop_last());
        let all = listed(node, requested, entries);
        assert forall|k: int| 0 <= k < all.len() implies {
            let m = #[trigger] all[k];
            &&& m.spec is Some
            &&& namespace_allowed(requested, m.spec->0.namespace)
            &&& m.file_info is Some
            &&& m.spec->0.node_name == node
        } by {
            if k < rest.len() {
                assert(all[k] == rest[k]);
            }
        }
    }
}

/// A check of `verb` on `requested`, with these answers, asked an access review for `namespace`
/// and the answer allowed access.
pub open spec fn reviewed_and_allowed(
    requested: Seq<Seq<char>>,
    verb: Seq<char>,
    answers: Seq<ReviewAnswerView>,
    namespace: Seq<char>,
) -> bool {
    exists|k: int|
        0 <= k < asked_in_check(requested, verb, answers).len() && #[trigger] asked_in_check(
            requested,
            verb,
            answers,
        )[k] == namespace && answer_allows(answers[k])
}

/// Only namespaces that passed an access review are listed: after a permission check of `verb` on
/// the requested namespaces that granted access, every listed item's namespace was asked about
/// in that check and its review allowed access, unless the request was one that skips the check
/// (no namespaces, or a single empty one).
pub proof fn lemma_listed_namespaces_were_reviewed(
    node: Seq<char>,
    requested: Seq<Seq<char>>,
    entries: Seq<ScannedEntry>,
    verb: Seq<char>,
    answers: Seq<ReviewAnswerView>,
)
    requires
        run_check(requested, verb, answers) == StepView::Granted,
    ensures
        forall|i: int|
            0 <= i < listed(node, requested, entries).len() ==> skips_check(requested)
                || reviewed_and_allowed(
                requested,
                verb,
                answers,
                (#[trigger] listed(node, requested, entries)[i]).spec->0.namespace,
            ),
{
    lemma_listed_items_pass_filter(node, requested, entries);
    if !skips_check(requested) {
        lemma_granted_check_reviewed_every_namespace(requested, verb, answers);
        let all = listed(node, requested, entries);
        assert forall|i: int| 0 <= i < all.len() implies reviewed_and_allowed(
            requested,
            verb,
            answers,
            (#[trigger] all[i]).spec->0.namespace,
        ) by {
            let n = all[i].spec->0.namespace;
            assert(namespace_allowed(requested, n));
            let t = choose|t: int| 0 <= t < requested.len() && requested[t] == n;
            assert(requested[t].len() > 0);
            let asked = asked_in_check(requested, verb, answers);
            let k = choose|k: int|
                0 <= k < asked.len() && asked[k] == requested[t] && answer_allows(
                    #[trigger] answers[k],
                );
            assert(asked[k] == n);
        }
    }
}

/// Only namespaces that passed an access review are watched: after a permission check of `verb`
/// on the watched namespaces that granted access, a log file event that the filter lets through
/// is for a namespace that was asked about in that check and whose review allowed access, unless
/// the namespaces were ones that skip the check.
pub proof fn lemma_watched_namespaces_were_reviewed(
    path: Seq<char>,
    kind: FsEventKind,
    watched: Seq<Seq<char>>,
    verb: Seq<char>,
    answers: Seq<ReviewAnswerView>,
)
    requires
        run_check(watched, verb, answers) == StepView::Granted,
        log_file_event_for(path, kind, watched) is Some,
    ensures
        skips_check(watched) || reviewed_and_allowed(
            watched,
            verb,
            answers,
            log_file_event_for(path, kind, watched)->0.namespace,
        ),
{
    if !skips_check(watched) {
        lemma_granted_check_reviewed_every_namespace(watched, verb, answers);
        let n = log_file_event_for(path, kind, watched)->0.namespace;
        assert(namespace_allowed(watched, n));
        let t = choose|t: int| 0 <= t < watched.len() && watched[t] == n;
        assert(watched[t].len() > 0);
        let asked = asked_in_check(watched, verb, answers);
        let k = choose|k: int|
            0 <= k < asked.len() && asked[k] == watched[t] && answer_allows(#[trigger] answers[k]);
        assert(asked[k] == n);
    }
}

/// The metadata to list for a request on `requested` namespaces, from the directory entries.
pub fn list_log_metadata(node_name: &str, requested: &Vec<String>, entries: &Vec<ScannedEntry>) -> (items:
    Vec<LogMetadata>)
    ensures
        metadata_view(items@) == listed(node_name@, strings_view(requested@), entries@),
        forall|k: int|
            0 <= k < items@.len() ==> (#[trigger] items@[k]).spec is Some && (skips_check(
                strings_view(requested@),
            ) || ({
                let ns = items@[k].spec->0.namespace@;
                ns.len() > 0 && strings_view(requested@).contains(ns)
            })),
{
    let ghost rv = strings_view(requested@);
    let mut items: Vec<LogMetadata> = Vec::new();
    for i in 0..entries.len()
        invariant
            rv == strings_view(requested@),
            metadata_view(items@) == listed(node_name@, rv, entries@.take(i as int)),
    {
        let e = &entries[i];
        let ghost before = metadata_view(items@);
        proof {
            assert(entries@.take(i + 1).drop_last() =~= entries@.take(i as int));
            assert(entries@.take(i + 1).last() == entries@[i as int]);
        }
        if log_path(e.path.as_str()) {
            match create_log_metadata(node_name, e.path.as_str(), &e.stat) {
                Ok(m) => {
                    let allowed = match &m.spec {
                        Some(spec) => namespace_is_allowed(requested, spec.namespace.as_str()),
                        None => false,
                    };
                    if allowed {
                        items.push(m);
                        assert(metadata_view(items@) =~= before.push(m@));
                    }
                },
                Err(_) => {},
            }
        }
    }
    assert(entries@.take(entries@.len() as int) =~= entries@);
    proof {
        lemma_listed_items_pass_filter(node_name@, rv, entries@);
        assert forall|k: int| 0 <= k < items@.len() implies (#[trigger] items@[k]).spec is Some
            && (skips_check(rv) || ({
            let ns = items@[k].spec->0.namespace@;
            ns.len() > 0 && rv.contains(ns)
        })) by {
            assert(metadata_view(items@)[k] == items@[k]@);
        }
    }
    items
}

/// The type name of a watch event.
pub open spec fn watch_event_type(t: LogFileEventType) -> Seq<char> {
    match t {
        LogFileEventType::Created => "ADDED"@,
        LogFileEventType::Modified => "MODIFIED"@,
        LogFileEventType::Deleted => "DELETED"@,
    }
}

/// The watch event for a log file event: its type name, and the metadata its name carries, with
/// no file information.
pub fn create_watch_event(node_name: &str, event: LogFileEvent) -> (w: LogMetadataWatchEvent)
    ensures
        w@ == (LogMetadataWatchEventView {
            event_type: watch_event_type(event.event_type),
            object: Some(
                LogMetadataView {
                    id: event.container_id@,
                    spec: Some(
                        LogMetadataSpecView {
                            node_name: node_name@,
                            namespace: event.namespace@,
                            pod_name: event.pod_name@,
                            container_name: event.container_name@,
                            container_id: event.container_id@,
                        },
                    ),
                    file_info: None,
                },
            ),
        }),
{
    let event_type = match event.event_type {
        LogFileEventType::Created => String::from_str("ADDED"),
        LogFileEventType::Modified => String::from_str("MODIFIED"),
        LogFileEventType::Deleted => String::from_str("DELETED"),
    };
    let metadata = LogMetadata {
        id: event.container_id.clone(),
        spec: Some(
            LogMetadataSpec {
                node_name: node_name.to_owned(),
                namespace: event.namespace,
                pod_name: event.pod_name,
                container_name: event.container_name,
                container_id: event.container_id,
            },
        ),
        file_info: None,
    };
    LogMetadataWatchEvent { event_type, object: Some(metadata) }
}

} // verus!

//! Container log file events: from raw file system events, through debouncing, to
//! `LogFileEvent`s for the log files that the agent serves.
use vstd::prelude::*;

use crate::log_file_name::{
    file_name_of, has_log_extension, is_log_file_name, lemma_log_file_name_unambiguous,
    log_extension, log_file_name_parts, parse_log_file_name, path_file_name,
};
use crate::kubernetes::skips_check;
use crate::text::{chars_of, str_eq};

verus! {

/// What happened to a log file.
#[derive(Debug, Clone, Copy, PartialEq, Eq, Structural)]
pub enum LogFileEventType {
    Created,
    Modified,
    Deleted,
}

/// The kind of a raw file system event, as far as the agent tells kinds apart.
#[derive(Debug, Clone, Copy, PartialEq, Eq, Structural)]
pub enum FsEventKind {
    Create,
    Modify,
    Remove,
    Other,
}

/// A raw file system event: what happened, and to which paths.
pub struct FsEvent {
    pub kind: FsEventKind,
    pub paths: Vec<String>,
}

/// An event on a container log file, with the fields its name carries.
#[derive(Debug, Clone)]
pub struct LogFileEvent {
    pub event_type: LogFileEventType,
    pub namespace: String,
    pub pod_name: String,
    pub container_name: String,
    pub container_id: String,
    pub file_path: String,
}

pub struct LogFileEventView {
    pub event_type: LogFileEventType,
    pub namespace: Seq<char>,
    pub pod_name: Seq<char>,
    pub container_name: Seq<char>,
    pub container_id: Seq<char>,
    pub file_path: Seq<char>,
}

impl View for LogFileEvent {
    type V = LogFileEventView;

    open spec fn view(&self) -> LogFileEventView {
        LogFileEventView {
            event_type: self.event_type,
            namespace: self.namespace@,
            pod_name: self.pod_name@,
            container_name: self.container_name@,
            container_id: self.container_id@,
            file_path: self.file_path@,
        }
    }
}

/// The strings of a vector of strings, as sequences of characters.
pub open spec fn strings_view(v: Seq<String>) -> Seq<Seq<char>> {
    v.map_values(|s: String| s@)
}

/// A namespace passes the filter when the filter is one that the permission check skips (no
/// namespaces, or a single empty one, which stands for all namespaces); otherwise only when it is
/// a non-empty namespace that the filter names, so an empty entry among others widens nothing.
pub open spec fn namespace_allowed(allowed: Seq<Seq<char>>, namespace: Seq<char>) -> bool {
    ||| skips_check(allowed)
    ||| (namespace.len() > 0 && allowed.contains(namespace))
}

/// The event type that a raw event kind becomes; `None` for kinds the agent ignores.
pub open spec fn event_type_of(kind: FsEventKind) -> Option<LogFileEventType> {
    match kind {
        FsEventKind::Create => Some(LogFileEventType::Created),
        FsEventKind::Modify => Some(LogFileEventType::Modified),
        FsEventKind::Remove => Some(LogFileEventType::Deleted),
        FsEventKind::Other => None,
    }
}

/// The log file event for a raw event of kind `kind` on `path`: the path's file name must follow
/// the log file name grammar, its namespace must pass the filter, and the kind must be one the
/// agent reports.
pub open spec fn log_file_event_for(
    path: Seq<char>,
    kind: FsEventKind,
    allowed: Seq<Seq<char>>,
) -> Option<LogFileEventView> {
    match path_file_name(path) {
        None => None,
        Some(name) => {
            if !is_log_file_name(name) {
                None
            } else {
                let (pod, ns, container, id) = choose|
                    pod: Seq<char>,
                    ns: Seq<char>,
                    container: Seq<char>,
                    id: Seq<char>,
                | log_file_name_parts(name, pod, ns, container, id);
                if !namespace_allowed(allowed, ns) {
                    None
                } else {
                    match event_type_of(kind) {
                        None => None,
                        Some(t) => Some(
                            LogFileEventView {
                                event_type: t,
                                namespace: ns,
                                pod_name: pod,
                                container_name: container,
                                container_id: id,
                                file_path: path,
                            },
                        ),
                    }
                }
            }
        },
    }
}

/// A raw event on a container log file whose namespace passes the filter is reported with the
/// fields of the file name and the path: a creation as `Created`, a modification as `Modified`, a
/// removal as `Deleted`; other kinds are not reported. A file whose namespace the filter refuses
/// is not reported.
pub proof fn lemma_log_file_event_fields(
    path: Seq<char>,
    kind: FsEventKind,
    allowed: Seq<Seq<char>>,
    name: Seq<char>,
    pod: Seq<char>,
    ns: Seq<char>,
    container: Seq<char>,
    id: Seq<char>,
)
    requires
        path_file_name(path) == Some(name),
        log_file_name_parts(name, pod, ns, container, id),
    ensures
        !namespace_allowed(allowed, ns) ==> log_file_event_for(path, kind, allowed) is None,
        namespace_allowed(allowed, ns) && kind == FsEventKind::Other ==> log_file_event_for(
            path,
            kind,
            allowed,
        ) is None,
        namespace_allowed(allowed, ns) && kind != FsEventKind::Other ==> log_file_event_for(
            path,
            kind,
            allowed,
        ) == Some(
            LogFileEventView {
                event_type: if kind == FsEventKind::Create {
                    LogFileEventType::Created
                } else if kind == FsEventKind::Modify {
                    LogFileEventType::Modified
                } else {
                    LogFileEventType::Deleted
                },
                namespace: ns,
                pod_name: pod,
                container_name: container,
                container_id: id,
                file_path: path,
            },
        ),
{
    let (p2, n2, c2, i2) = choose|
        pod: Seq<char>,
        ns: Seq<char>,
        container: Seq<char>,
        id: Seq<char>,
    | log_file_name_parts(name, pod, ns, container, id);
    lemma_log_file_name_unambiguous(name, pod, ns, container, id, p2, n2, c2, i2);
}

/// Whether `namespace` passes the namespace filter `allowed`.
pub fn namespace_is_allowed(allowed: &Vec<String>, namespace: &str) -> (r: bool)
    ensures
        r == namespace_allowed(strings_view(allowed@), namespace@),
        r ==> skips_check(strings_view(allowed@)) || (namespace@.len() > 0 && strings_view(
            allowed@,
        ).contains(namespace@)),
{
    let ghost sv = strings_view(allowed@);
    let n = allowed.len();
    if n == 0 {
        return true;
    }
    if n == 1 && allowed[0].as_str().is_empty() {
        assert(sv[0] == allowed@[0]@);
        return true;
    }
    proof {
        if n == 1 {
            assert(sv[0] == allowed@[0]@);
        }
    }
    if namespace.is_empty() {
        return false;
    }
    for i in 0..n
        invariant
            n == allowed@.len(),
            sv == strings_view(allowed@),
            namespace@.len() > 0,
            forall|j: int| 0 <= j < i ==> allowed@[j]@ != namespace@,
    {
        if str_eq(allowed[i].as_str(), namespace) {
            assert(sv[i as int] == namespace@);
            return true;
        }
    }
    proof {
        assert forall|j: int| 0 <= j < sv.len() implies sv[j] != namespace@ by {
            assert(sv[j] == allowed@[j]@);
        }
    }
    false
}

/// The log file event for a raw event of kind `kind` on `path`, if the agent reports one.
pub fn create_log_file_event(path: &str, kind: FsEventKind, allowed_namespaces: &Vec<String>) -> (r:
    Option<LogFileEvent>)
    ensures
        r matches Some(e) ==> log_file_event_for(path@, kind, strings_view(allowed_namespaces@))
            == Some(e@),
        r is None ==> log_file_event_for(path@, kind, strings_view(allowed_namespaces@)) is None,
        r matches Some(e) ==> skips_check(strings_view(allowed_namespaces@)) || (e.namespace@.len()
            > 0 && strings_view(allowed_namespaces@).contains(e.namespace@)),
{
    let name = match file_name_of(path) {
        Some(n) => n,
        None => {
            return None;
        },
    };
    let parsed = match parse_log_file_name(name.as_str()) {
        Some(p) => p,
        None => {
            return None;
        },
    };
    proof {
        let (pod, ns, container, id) = choose|
            pod: Seq<char>,
            ns: Seq<char>,
            container: Seq<char>,
            id: Seq<char>,
        | log_file_name_parts(name@, pod, ns, container, id);
        lemma_log_file_name_unambiguous(
            name@,
            pod,
            ns,
            container,
            id,
            parsed.pod_name@,
            parsed.namespace@,
            parsed.container_name@,
            parsed.container_id@,
        );
    }
    if !namespace_is_allowed(allowed_namespaces, parsed.namespace.as_str()) {
        return None;
    }
    let event_type = match kind {
        FsEventKind::Create => LogFileEventType::Created,
        FsEventKind::Modify => LogFileEventType::Modified,
        FsEventKind::Remove => LogFileEventType::Deleted,
        FsEventKind::Other => {
            return None;
        },
    };
    Some(
        LogFileEvent {
            event_type,
            namespace: parsed.namespace,
            pod_name: parsed.pod_name,
            container_name: parsed.container_name,
            container_id: parsed.container_id,
            file_path: path.to_owned(),
        },
    )
}

/// A path whose file name has the extension `log`: the raw events the debouncer keeps.
pub open spec fn is_log_path(path: Seq<char>) -> bool {
    path_file_name(path) matches Some(name) && has_log_extension(name)
}

/// Whether the file name of `path` has the extension `log`.
pub fn log_path(path: &str) -> (r: bool)
    ensures
        r == is_log_path(path@),
{
    match file_name_of(path) {
        Some(name) => log_extension(&chars_of(name.as_str())),
        None => false,
    }
}

/// A raw event that waits for its path to be quiet: the path, the kind of the latest raw event on
/// it, and when that event came (in nanoseconds on the caller's monotonic clock).
pub struct PendingEvent {
    pub path: String,
    pub kind: FsEventKind,
    pub since: u128,
}

pub struct PendingEventView {
    pub path: Seq<char>,
    pub kind: FsEventKind,
    pub since: int,
}

impl View for PendingEvent {
    type V = PendingEventView;

    open spec fn view(&self) -> PendingEventView {
        PendingEventView { path: self.path@, kind: self.kind, since: self.since as int }
    }
}

/// The views of a vector of pending events.
pub open spec fn pending_view(v: Seq<PendingEvent>) -> Seq<PendingEventView> {
    v.map_values(|e: PendingEvent| e@)
}

/// No two entries are for the same path.
pub open spec fn distinct_paths(p: Seq<PendingEventView>) -> bool {
    forall|i: int, j: int| 0 <= i < p.len() && 0 <= j < p.len() && i != j ==> p[i].path != p[j].path
}

/// The path of an event has been quiet for at least `debounce` at time `now` (a clock reading
/// before the event counts as no time passed).
pub open spec fn is_due(e: PendingEventView, now: int, debounce: int) -> bool {
    let elapsed = if now >= e.since {
        now - e.since
    } else {
        0
    };
    elapsed >= debounce
}

/// `path` is one of the `.log` paths of a raw event on `paths`.
pub open spec fn recorded_in(paths: Seq<Seq<char>>, path: Seq<char>) -> bool {
    paths.contains(path) && is_log_path(path)
}

/// The log file events for a sequence of due entries, in order, leaving out those the agent does
/// not report.
pub open spec fn events_for(due: Seq<PendingEventView>, allowed: Seq<Seq<char>>) -> Seq<
    LogFileEventView,
>
    decreases due.len(),
{
    if due.len() == 0 {
        Seq::empty()
    } else {
        let rest = events_for(due.drop_last(), allowed);
        match log_file_event_for(due.last().path, due.last().kind, allowed) {
            Some(e) => rest.push(e),
            None => rest,
        }
    }
}

/// `after` is `before` with each `.log` path of a raw event on `paths` (of kind `kind`, at time
/// `now`) waiting anew, replacing what waited for it; nothing else changes.
pub open spec fn recorded_from(
    before: Seq<PendingEventView>,
    after: Seq<PendingEventView>,
    paths: Seq<Seq<char>>,
    kind: FsEventKind,
    now: int,
) -> bool {
    &&& distinct_paths(after)
    &&& forall|e: PendingEventView| #[trigger]
        after.contains(e) <==> if recorded_in(paths, e.path) {
            e.kind == kind && e.since == now
        } else {
            before.contains(e)
        }
}

/// `due` holds, once per path, the entries of `before` that are due at `now`, and `after`
/// holds the others.
pub open spec fn drained(
    before: Seq<PendingEventView>,
    after: Seq<PendingEventView>,
    due: Seq<PendingEventView>,
    now: int,
    debounce: int,
) -> bool {
    &&& distinct_paths(after)
    &&& distinct_paths(due)
    &&& forall|e: PendingEventView| #[trigger]
        after.contains(e) <==> before.contains(e) && !is_due(e, now, debounce)
    &&& forall|e: PendingEventView| #[trigger]
        due.contains(e) <==> before.contains(e) && is_due(e, now, debounce)
}

/// The views of a vector of log file events.
pub open spec fn events_view(v: Seq<LogFileEvent>) -> Seq<LogFileEventView> {
    v.map_values(|e: LogFileEvent| e@)
}

/// A `.log` path of a raw event, recorded at `t`, is handed out by a later drain at `now` exactly
/// when it has been quiet for the debounce period since `t`; until then it keeps waiting, with
/// that event's kind and time.
pub proof fn lemma_recorded_path_waits_or_is_handed_out(
    p0: Seq<PendingEventView>,
    p1: Seq<PendingEventView>,
    p2: Seq<PendingEventView>,
    due: Seq<PendingEventView>,
    paths: Seq<Seq<char>>,
    kind: FsEventKind,
    t: int,
    now: int,
    debounce: int,
    path: Seq<char>,
)
    requires
        recorded_from(p0, p1, paths, kind, t),
        drained(p1, p2, due, now, debounce),
        recorded_in(paths, path),
    ensures
        ({
            let e = PendingEventView { path, kind, since: t };
            if is_due(e, now, debounce) {
                &&& due.contains(e)
                &&& forall|x: PendingEventView| #[trigger] p2.contains(x) ==> x.path != path
            } else {
                &&& p2.contains(e)
                &&& forall|x: PendingEventView| #[trigger] due.contains(x) ==> x.path != path
            }
        }),
{
    let e = PendingEventView { path, kind, since: t };
    assert(p1.contains(e));
    assert forall|x: PendingEventView| #[trigger] p2.contains(x) && x.path == path implies x == e by {
        assert(p1.contains(x));
    }
    assert forall|x: PendingEventView| #[trigger] due.contains(x) && x.path == path implies x == e by {
        assert(p1.contains(x));
    }
}

/// After two raw events on the same `.log` path, the path waits with the later one's kind and
/// time alone.
pub proof fn lemma_latest_event_wins(
    p0: Seq<PendingEventView>,
    p1: Seq<PendingEventView>,
    p2: Seq<PendingEventView>,
    paths1: Seq<Seq<char>>,
    kind1: FsEventKind,
    t1: int,
    paths2: Seq<Seq<char>>,
    kind2: FsEventKind,
    t2: int,
    path: Seq<char>,
)
    requires
        recorded_from(p0, p1, paths1, kind1, t1),
        recorded_from(p1, p2, paths2, kind2, t2),
        recorded_in(paths1, path),
        recorded_in(paths2, path),
    ensures
        p2.contains(PendingEventView { path, kind: kind2, since: t2 }),
        forall|x: PendingEventView| #[trigger]
            p2.contains(x) && x.path == path ==> x.kind == kind2 && x.since == t2,
{
}

/// Two drains in a row never hand out the same path twice.
pub proof fn lemma_handed_out_once(
    p0: Seq<PendingEventView>,
    p1: Seq<PendingEventView>,
    p2: Seq<PendingEventView>,
    due1: Seq<PendingEventView>,
    due2: Seq<PendingEventView>,
    now1: int,
    now2: int,
    debounce: int,
)
    requires
        distinct_paths(p0),
        drained(p0, p1, due1, now1, debounce),
        drained(p1, p2, due2, now2, debounce),
    ensures
        forall|x: PendingEventView, y: PendingEventView|
            #![trigger due1.contains(x), due2.contains(y)]
            due1.contains(x) && due2.contains(y) ==> x.path != y.path,
{
    assert forall|x: PendingEventView, y: PendingEventView|
        #![trigger due1.contains(x), due2.contains(y)]
        due1.contains(x) && due2.contains(y) implies x.path != y.path by {
        assert(p0.contains(x));
        assert(p1.contains(y));
        assert(p0.contains(y));
        if x.path == y.path {
            let i = choose|i: int| 0 <= i < p0.len() && p0[i] == x;
            let j = choose|j: int| 0 <= j < p0.len() && p0[j] == y;
            assert(i == j);
        }
    }
}

/// Collects raw file system events per path and hands them out once their path has been quiet
/// for the debounce period.
pub struct Debouncer {
    pending: Vec<PendingEvent>,
    debounce_nanos: u128,
    allowed_namespaces: Vec<String>,
}

impl Debouncer {
    #[verifier::type_invariant]
    spec fn inv(self) -> bool {
        distinct_paths(pending_view(self.pending@))
    }

    /// The entries that wait, one per path.
    pub closed spec fn pending(self) -> Seq<PendingEventView> {
        pending_view(self.pending@)
    }

    /// The debounce period in nanoseconds.
    pub closed spec fn debounce(self) -> int {
        self.debounce_nanos as int
    }

    /// The namespace filter.
    pub closed spec fn allowed(self) -> Seq<Seq<char>> {
        strings_view(self.allowed_namespaces@)
    }

    /// A debouncer with nothing pending.
    pub fn new(debounce_ms: u64, allowed_namespaces: Vec<String>) -> (d: Self)
        ensures
            d.pending() == Seq::<PendingEventView>::empty(),
            d.debounce() == debounce_ms * 1_000_000,
            d.allowed() == strings_view(allowed_namespaces@),
    {
        let d = Debouncer {
            pending: Vec::new(),
            debounce_nanos: (debounce_ms as u128) * 1_000_000,
            allowed_namespaces,
        };
        assert(d.pending() =~= Seq::<PendingEventView>::empty());
        d
    }

    /// Records a raw event that came at time `now`: each of its `.log` paths now waits with this
    /// event's kind and time, replacing what waited for that path; other paths are unchanged.
    pub fn record(&mut self, event: &FsEvent, now: u128)
        ensures
            final(self).debounce() == old(self).debounce(),
            final(self).allowed() == old(self).allowed(),
            recorded_from(
                old(self).pending(),
                final(self).pending(),
                strings_view(event.paths@),
                event.kind,
                now as int,
            ),
    {
        proof {
            use_type_invariant(&*self);
        }
        let ghost old_p = pending_view(self.pending@);
        let ghost paths = strings_view(event.paths@);
        let mut pending: Vec<PendingEvent> = Vec::new();
        std::mem::swap(&mut pending, &mut self.pending);
        for i in 0..event.paths.len()
            invariant
                paths == strings_view(event.paths@),
                distinct_paths(pending_view(pending@)),
                forall|e: PendingEventView| #[trigger]
                    pending_view(pending@).contains(e) <==> if recorded_in(
                        paths.take(i as int),
                        e.path,
                    ) {
                        e.kind == event.kind && e.since == now
                    } else {
                        old_p.contains(e)
                    },
        {
            let path = &event.paths[i];
            let ghost before = pending_view(pending@);
            let ghost t0 = paths.take(i as int);
            let ghost t1 = paths.take(i + 1);
            assert(t1 =~= t0.push(path@));
            if log_path(path.as_str()) {
                Self::upsert(&mut pending, path, event.kind, now);
                proof {
                    let after = pending_view(pending@);
                    assert forall|e: PendingEventView| #[trigger]
                        after.contains(e) <==> if recorded_in(t1, e.path) {
                            e.kind == event.kind && e.since == now
                        } else {
                            old_p.contains(e)
                        } by {
                        if e.path == path@ {
                            assert(t1.contains(path@)) by {
                                assert(t1[i as int] == path@);
                            }
                        } else {
                            if recorded_in(t1, e.path) {
                                let k = choose|k: int| 0 <= k < t1.len() && t1[k] == e.path;
                                assert(t0[k] == e.path);
                            }
                            if recorded_in(t0, e.path) {
                                let k = choose|k: int| 0 <= k < t0.len() && t0[k] == e.path;
                                assert(t1[k] == e.path);
                            }
                        }
                    }
                }
            } else {
                proof {
                    assert forall|e: PendingEventView| #[trigger]
                        before.contains(e) <==> if recorded_in(t1, e.path) {
                            e.kind == event.kind && e.since == now
                        } else {
                            old_p.contains(e)
                        } by {
                        if recorded_in(t1, e.path) {
                            let k = choose|k: int| 0 <= k < t1.len() && t1[k] == e.path;
                            if k == i {
                                assert(false);
                            }
                            assert(t0[k] == e.path);
                        }
                        if recorded_in(t0, e.path) {
                            let k = choose|k: int| 0 <= k < t0.len() && t0[k] == e.path;
                            assert(t1[k] == e.path);
                        }
                    }
                }
            }
        }
        assert(paths.take(event.paths@.len() as int) =~= paths);
        self.pending = pending;
    }

    /// Makes `path` wait with `kind` since `now`, replacing the entry for `path` if there is one.
    fn upsert(pending: &mut Vec<PendingEvent>, path: &String, kind: FsEventKind, now: u128)
        requires
            distinct_paths(pending_view(old(pending)@)),
        ensures
            distinct_paths(pending_view(final(pending)@)),
            forall|e: PendingEventView| #[trigger]
                pending_view(final(pending)@).contains(e) <==> if e.path == path@ {
                    e.kind == kind && e.since == now
                } else {
                    pending_view(old(pending)@).contains(e)
                },
    {
        let ghost before = pending_view(pending@);
        let mut found: Option<usize> = None;
        for j in 0..pending.len()
            invariant
                before == pending_view(pending@),
                found matches Some(k) ==> k < pending@.len() && before[k as int].path == path@,
                found is None ==> forall|t: int| 0 <= t < j ==> before[t].path != path@,
        {
            if found.is_none() && str_eq(pending[j].path.as_str(), path.as_str()) {
                found = Some(j);
            }
        }
        let entry = PendingEvent { path: path.clone(), kind, since: now };
        match found {
            Some(k) => {
                pending.set(k, entry);
                proof {
                    let after = pending_view(pending@);
                    assert(after =~= before.update(k as int, entry@));
                    assert forall|e: PendingEventView| #[trigger]
                        after.contains(e) <==> if e.path == path@ {
                            e.kind == kind && e.since == now
                        } else {
                            before.contains(e)
                        } by {
                        if after.contains(e) {
                            let t = choose|t: int| 0 <= t < after.len() && after[t] == e;
                            if t != k {
                                assert(before[t] == e);
                            }
                        }
                        if e.path == path@ && e.kind == kind && e.since == now {
                            assert(after[k as int] == e);
                        }
                        if e.path != path@ && before.contains(e) {
                            let t = choose|t: int| 0 <= t < before.len() && before[t] == e;
                            assert(t != k);
                            assert(after[t] == e);
                        }
                    }
                }
            },
            None => {
                pending.push(entry);
                proof {
                    let after = pending_view(pending@);
                    assert(after =~= before.push(entry@));
                    assert forall|e: PendingEventView| #[trigger]
                        after.contains(e) <==> if e.path == path@ {
                            e.kind == kind && e.since == now
                        } else {
                            before.contains(e)
                        } by {
                        if after.contains(e) {
                            let t = choose|t: int| 0 <= t < after.len() && after[t] == e;
                            if t < before.len() {
                                assert(before[t] == e);
                            }
                        }
                        if e.path == path@ && e.kind == kind && e.since == now {
                            assert(after[before.len() as int] == e);
                        }
                        if before.contains(e) {
                            let t = choose|t: int| 0 <= t < before.len() && before[t] == e;
                            assert(after[t] == e);
                        }
                    }
                }
            },
        }
    }
    /// Hands out the entries that are due at `now` (each path's latest raw event, once the path
    /// has been quiet for the debounce period); the others keep waiting.
    pub fn take_due(&mut self, now: u128) -> (due: Vec<PendingEvent>)
        ensures
            final(self).debounce() == old(self).debounce(),
            final(self).allowed() == old(self).allowed(),
            drained(
                old(self).pending(),
                final(self).pending(),
                pending_view(due@),
                now as int,
                old(self).debounce(),
            ),
    {
        proof {
            use_type_invariant(&*self);
        }
        let mut pending: Vec<PendingEvent> = Vec::new();
        std::mem::swap(&mut pending, &mut self.pending);
        let ghost old_v = pending_view(pending@);
        let d = self.debounce_nanos;
        let mut kept: Vec<PendingEvent> = Vec::new();
        let mut due: Vec<PendingEvent> = Vec::new();
        for i in 0..pending.len()
            invariant
                old_v == pending_view(pending@),
                distinct_paths(old_v),
                distinct_paths(pending_view(kept@)),
                distinct_paths(pending_view(due@)),
                forall|e: PendingEventView| #[trigger]
                    pending_view(kept@).contains(e) <==> old_v.take(i as int).contains(e)
                        && !is_due(e, now as int, d as int),
                forall|e: PendingEventView| #[trigger]
                    pending_view(due@).contains(e) <==> old_v.take(i as int).contains(e) && is_due(
                        e,
                        now as int,
                        d as int,
                    ),
        {
            let e = &pending[i];
            let elapsed: u128 = if now >= e.since {
                now - e.since
            } else {
                0
            };
            let copy = PendingEvent { path: e.path.clone(), kind: e.kind, since: e.since };
            let ghost t0 = old_v.take(i as int);
            let ghost t1 = old_v.take(i + 1);
            proof {
                assert(t1 =~= t0.push(old_v[i as int]));
                assert(copy@ == old_v[i as int]);
            }
            let ghost kept_before = pending_view(kept@);
            let ghost due_before = pending_view(due@);
            if elapsed >= d {
                due.push(copy);
                proof {
                    let after = pending_view(due@);
                    assert(after =~= due_before.push(copy@));
                    assert forall|a: int, b: int|
                        0 <= a < after.len() && 0 <= b < after.len() && a != b implies after[a].path
                        != after[b].path by {
                        if a == after.len() - 1 || b == after.len() - 1 {
                            let o = if a == after.len() - 1 {
                                b
                            } else {
                                a
                            };
                            assert(due_before.contains(after[o]));
                            let x = choose|x: int| 0 <= x < t0.len() && t0[x] == after[o];
                            assert(old_v[x] == after[o]);
                        }
                    }
                    assert forall|e: PendingEventView| #[trigger]
                        after.contains(e) <==> t1.contains(e) && is_due(e, now as int, d as int) by {
                        if after.contains(e) {
                            let t = choose|t: int| 0 <= t < after.len() && after[t] == e;
                            if t < due_before.len() {
                                assert(due_before[t] == e);
                                assert(due_before.contains(e));
                                let x = choose|x: int| 0 <= x < t0.len() && t0[x] == e;
                                assert(t1[x] == e);
                            } else {
                                assert(t1[i as int] == e);
                            }
                        }
                        if t1.contains(e) && is_due(e, now as int, d as int) {
                            let x = choose|x: int| 0 <= x < t1.len() && t1[x] == e;
                            if x < i {
                                assert(t0[x] == e);
                                assert(t0.contains(e));
                                assert(due_before.contains(e));
                                let t = choose|t: int| 0 <= t < due_before.len() && due_before[t] == e;
                                assert(after[t] == e);
                            } else {
                                assert(after[after.len() - 1] == e);
                            }
                        }
                    }
                    assert forall|e: PendingEventView| #[trigger]
                        kept_before.contains(e) <==> t1.contains(e) && !is_due(e, now as int, d as int) by {
                        if t1.contains(e) && !is_due(e, now as int, d as int) {
                            let x = choose|x: int| 0 <= x < t1.len() && t1[x] == e;
                            if x < i {
                                assert(t0[x] == e);
                            }
                        }
                        if kept_before.contains(e) {
                            let x = choose|x: int| 0 <= x < t0.len() && t0[x] == e;
                            assert(t1[x] == e);
                        }
                    }
                }
            } else {
                kept.push(copy);
                proof {
                    let after = pending_view(kept@);
                    assert(after =~= kept_before.push(copy@));
                    assert forall|a: int, b: int|
                        0 <= a < after.len() && 0 <= b < after.len() && a != b implies after[a].path
                        != after[b].path by {
                        if a == after.len() - 1 || b == after.len() - 1 {
                            let o = if a == after.len() - 1 {
                                b
                            } else {
                                a
                            };
                            assert(kept_before.contains(after[o]));
                            let x = choose|x: int| 0 <= x < t0.len() && t0[x] == after[o];
                            assert(old_v[x] == after[o]);
                        }
                    }
                    assert forall|e: PendingEventView| #[trigger]
                        after.contains(e) <==> t1.contains(e) && !is_due(e, now as int, d as int) by {
                        if after.contains(e) {
                            let t = choose|t: int| 0 <= t < after.len() && after[t] == e;
                            if t < kept_before.len() {
                                assert(kept_before[t] == e);
                                assert(kept_before.contains(e));
                                let x = choose|x: int| 0 <= x < t0.len() && t0[x] == e;
                                assert(t1[x] == e);
                            } else {
                                assert(t1[i as int] == e);
                            }
                        }
                        if t1.contains(e) && !is_due(e, now as int, d as int) {
                            let x = choose|x: int| 0 <= x < t1.len() && t1[x] == e;
                            if x < i {
                                assert(t0[x] == e);
                                assert(t0.contains(e));
                                assert(kept_before.contains(e));
                                let t = choose|t: int| 0 <= t < kept_before.len() && kept_before[t] == e;
                                assert(after[t] == e);
                            } else {
                                assert(after[after.len() - 1] == e);
                            }
                        }
                    }
                    assert forall|e: PendingEventView| #[trigger]
                        due_before.contains(e) <==> t1.contains(e) && is_due(e, now as int, d as int) by {
                        if t1.contains(e) && is_due(e, now as int, d as int) {
                            let x = choose|x: int| 0 <= x < t1.len() && t1[x] == e;
                            if x < i {
                                assert(t0[x] == e);
                            }
                        }
                        if due_before.contains(e) {
                            let x = choose|x: int| 0 <= x < t0.len() && t0[x] == e;
                            assert(t1[x] == e);
                        }
                    }
                }
            }
        }
        assert(old_v.take(pending@.len() as int) =~= old_v);
        self.pending = kept;
        due
    }

    /// Hands out the log file events for the entries that are due at `now`, in the order of
    /// `take_due`, leaving out those the agent does not report.
    pub fn tick(&mut self, now: u128) -> (events: Vec<LogFileEvent>)
        ensures
            final(self).debounce() == old(self).debounce(),
            final(self).allowed() == old(self).allowed(),
            exists|due: Seq<PendingEventView>|
                {
                    &&& drained(
                        old(self).pending(),
                        final(self).pending(),
                        due,
                        now as int,
                        old(self).debounce(),
                    )
                    &&& events_view(events@) == events_for(due, old(self).allowed())
                },
    {
        let due = self.take_due(now);
        let events = log_file_events(&due, &self.allowed_namespaces);
        assert(drained(
            old(self).pending(),
            self.pending(),
            pending_view(due@),
            now as int,
            old(self).debounce(),
        ));
        events
    }
}

/// The log file events for a sequence of due entries, in order, leaving out those the agent does
/// not report.
pub fn log_file_events(due: &Vec<PendingEvent>, allowed_namespaces: &Vec<String>) -> (events: Vec<
    LogFileEvent,
>)
    ensures
        events_view(events@) == events_for(pending_view(due@), strings_view(allowed_namespaces@)),
{
    let ghost dv = pending_view(due@);
    let ghost allowed = strings_view(allowed_namespaces@);
    let mut events: Vec<LogFileEvent> = Vec::new();
    for i in 0..due.len()
        invariant
            dv == pending_view(due@),
            allowed == strings_view(allowed_namespaces@),
            events_view(events@) == events_for(dv.take(i as int), allowed),
    {
        let e = &due[i];
        let ghost before = events_view(events@);
        proof {
            assert(dv.take(i + 1).drop_last() =~= dv.take(i as int));
            assert(dv.take(i + 1).last() == e@);
        }
        match create_log_file_event(e.path.as_str(), e.kind, allowed_namespaces) {
            Some(ev) => {
                events.push(ev);
                assert(events_view(events@) =~= before.push(ev@));
            },
            None => {},
        }
    }
    assert(dv.take(due@.len() as int) =~= dv);
    events
}

} // verus!

//! The messages that the agent's gRPC services exchange.
use vstd::prelude::*;

verus! {

/// A point in time: seconds since the Unix epoch and nanoseconds past them.
#[derive(Debug, Clone, Copy, PartialEq, Eq, Structural)]
pub struct Timestamp {
    pub seconds: i64,
    pub nanos: i32,
}

/// The size and last change of a log file.
#[derive(Debug, Clone, Copy, PartialEq, Eq, Structural)]
pub struct LogMetadataFileInfo {
    pub size: i64,
    pub last_modified_at: Option<Timestamp>,
}

/// Where a log file belongs: node, namespace, pod, container.
#[derive(Debug, Clone)]
pub struct LogMetadataSpec {
    pub node_name: String,
    pub namespace: String,
    pub pod_name: String,
    pub container_name: String,
    pub container_id: String,
}

/// What the agent reports about one container log file.
#[derive(Debug, Clone)]
pub struct LogMetadata {
    pub id: String,
    pub spec: Option<LogMetadataSpec>,
    pub file_info: Option<LogMetadataFileInfo>,
}

/// A list of log metadata.
#[derive(Debug, Clone)]
pub struct LogMetadataList {
    pub items: Vec<LogMetadata>,
}

/// A change to a log file: `ADDED`, `MODIFIED` or `DELETED`, and the file's metadata.
#[derive(Debug, Clone)]
pub struct LogMetadataWatchEvent {
    pub event_type: String,
    pub object: Option<LogMetadata>,
}

/// One log record as the records service sends it.
#[derive(Debug, Clone)]
pub struct LogRecord {
    pub timestamp: Option<Timestamp>,
    pub message: String,
}

/// A request to stream the records of one container's log.
#[derive(Debug, Clone)]
pub struct LogRecordsStreamRequest {
    pub namespace: String,
    pub pod_name: String,
    pub container_name: String,
    pub container_id: String,
    pub start_time: String,
    pub stop_time: String,
    pub grep: String,
    pub follow_from: i32,
}

pub struct LogMetadataSpecView {
    pub node_name: Seq<char>,
    pub namespace: Seq<char>,
    pub pod_name: Seq<char>,
    pub container_name: Seq<char>,
    pub container_id: Seq<char>,
}

pub struct LogMetadataView {
    pub id: Seq<char>,
    pub spec: Option<LogMetadataSpecView>,
    pub file_info: Option<LogMetadataFileInfo>,
}

pub struct LogMetadataWatchEventView {
    pub event_type: Seq<char>,
    pub object: Option<LogMetadataView>,
}

pub struct LogRecordView {
    pub timestamp: Option<Timestamp>,
    pub message: Seq<char>,
}

impl View for LogMetadataSpec {
    type V = LogMetadataSpecView;

    open spec fn view(&self) -> LogMetadataSpecView {
        LogMetadataSpecView {
            node_name: self.node_name@,
            namespace: self.namespace@,
            pod_name: self.pod_name@,
            container_name: self.container_name@,
            container_id: self.container_id@,
        }
    }
}

impl View for LogMetadata {
    type V = LogMetadataView;

    open spec fn view(&self) -> LogMetadataView {
        LogMetadataView {
            id: self.id@,
            spec: match self.spec {
                Some(s) => Some(s@),
                None => None,
            },
            file_info: self.file_info,
        }
    }
}

impl View for LogMetadataWatchEvent {
    type V = LogMetadataWatchEventView;

    open spec fn view(&self) -> LogMetadataWatchEventView {
        LogMetadataWatchEventView {
            event_type: self.event_type@,
            object: match self.object {
                Some(o) => Some(o@),
                None => None,
            },
        }
    }
}

impl View for LogRecord {
    type V = LogRecordView;

    open spec fn view(&self) -> LogRecordView {
        LogRecordView { timestamp: self.timestamp, message: self.message@ }
    }
}

/// The views of a vector of log metadata.
pub open spec fn metadata_view(v: Seq<LogMetadata>) -> Seq<LogMetadataView> {
    v.map_values(|m: LogMetadata| m@)
}

} // verus!

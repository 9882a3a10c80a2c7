//! Log records out of the log search engine's output: the output is read line by line, a line
//! that holds a JSON object gives its `timestamp` and `message` members, any other line is a
//! plain message; the records go to a channel.
use vstd::prelude::*;

use std::sync::Arc;

use crate::config::{Config, ConfigView};
use crate::text::{char_free, chars_of, is_blank, is_blank_chars, substring};

verus! {

/// An instant in UTC: seconds since the Unix epoch, and nanoseconds past that second (at least a
/// billion within a leap second).
#[derive(Debug, Clone, Copy, PartialEq, Eq, Structural)]
pub struct UtcTime {
    pub seconds: i64,
    pub nanos: u32,
}

/// One log record: when it was written, if known, and its message.
#[derive(Debug, Clone)]
pub struct LogRecord {
    pub timestamp: Option<UtcTime>,
    pub message: String,
}

pub struct LogRecordView {
    pub timestamp: Option<UtcTime>,
    pub message: Seq<char>,
}

impl View for LogRecord {
    type V = LogRecordView;

    open spec fn view(&self) -> LogRecordView {
        LogRecordView { timestamp: self.timestamp, message: self.message@ }
    }
}

/// The views of a vector of log records.
pub open spec fn records_view(v: Seq<LogRecord>) -> Seq<LogRecordView> {
    v.map_values(|r: LogRecord| r@)
}

/// Where a forward stream starts following the file.
#[derive(Debug, Clone, Copy, PartialEq, Eq, Structural)]
pub enum FollowFromType {
    Noop,
    Default,
    End,
}

/// The entry point to the log search engine; it holds the agent's configuration.
#[derive(Clone)]
pub struct RgklIntegration {
    config: Arc<Config>,
}

impl RgklIntegration {
    /// The configuration it holds.
    pub closed spec fn config_view(self) -> ConfigView {
        self.config@
    }

    pub fn new(config: Arc<Config>) -> (r: Self)
        ensures
            r.config_view() == config@,
    {
        RgklIntegration { config }
    }

    /// The configuration it holds.
    pub fn config(&self) -> (c: &Config)
        ensures
            c@ == self.config_view(),
    {
        &*self.config
    }
}

// ----- Reading the output as text -----

/// What `String::from_utf8_lossy` makes of a byte sequence: its characters, with each invalid
/// UTF-8 sequence replaced by U+FFFD.
pub uninterp spec fn utf8_lossy(bytes: Seq<u8>) -> Seq<char>;

/// Calls `String::from_utf8_lossy`. The contract names the result and states what its
/// documentation gives: valid UTF-8 decodes to its characters.
#[verifier::external_body]
fn decode_utf8_lossy(buf: &[u8]) -> (s: String)
    ensures
        s@ == utf8_lossy(buf@),
        vstd::utf8::valid_utf8(buf@) ==> s@ == vstd::utf8::decode_utf8(buf@),
{
    String::from_utf8_lossy(buf).into_owned()
}

/// A line without the `\r` that ended it, if one did.
pub open spec fn strip_cr(line: Seq<char>) -> Seq<char> {
    if line.len() > 0 && line.last() == '\r' {
        line.drop_last()
    } else {
        line
    }
}

/// Reading `s` from the left: the lines ended by a `\n` so far (each without its `\n` and one
/// `\r` before it), and the characters since the last `\n`.
pub open spec fn line_scan(s: Seq<char>) -> (Seq<Seq<char>>, Seq<char>)
    decreases s.len(),
{
    if s.len() == 0 {
        (Seq::empty(), Seq::empty())
    } else {
        let (done, current) = line_scan(s.drop_last());
        if s.last() == '\n' {
            (done.push(strip_cr(current)), Seq::empty())
        } else {
            (done, current.push(s.last()))
        }
    }
}

/// The lines of `s`, as `str::lines` gives them: split at each `\n`, a `\r` right before a `\n`
/// dropped, and no empty last line after a final `\n`.
pub open spec fn text_lines(s: Seq<char>) -> Seq<Seq<char>> {
    let (done, current) = line_scan(s);
    if current.len() > 0 {
        done.push(current)
    } else {
        done
    }
}

/// Characters without a `\n` extend the line being read.
proof fn lemma_line_scan_extends(s: Seq<char>, l: Seq<char>)
    requires
        char_free(l, '\n'),
    ensures
        line_scan(s + l) == (line_scan(s).0, line_scan(s).1 + l),
    decreases l.len(),
{
    if l.len() == 0 {
        assert(s + l =~= s);
        assert(line_scan(s).1 + l =~= line_scan(s).1);
    } else {
        let init = l.drop_last();
        assert(char_free(init, '\n')) by {
            assert forall|i: int| 0 <= i < init.len() implies init[i] != '\n' by {
                assert(init[i] == l[i]);
            }
        }
        lemma_line_scan_extends(s, init);
        assert((s + l).drop_last() =~= s + init);
        assert((s + l).last() == l.last());
        assert(l.last() == l[l.len() - 1]);
        assert(line_scan(s).1 + l =~= (line_scan(s).1 + init).push(l.last()));
    }
}

/// Output lines one at a time: after text that ends at a line break (or is empty), a line of
/// characters without `\n` followed by `\n` adds exactly that line, without a `\r` right before
/// the `\n`, to the lines of the text; the lines before it stay as they were.
pub proof fn lemma_terminated_line_appends(s: Seq<char>, l: Seq<char>)
    requires
        s.len() == 0 || s.last() == '\n',
        char_free(l, '\n'),
    ensures
        text_lines(s + l + seq!['\n']) == text_lines(s).push(strip_cr(l)),
{
    if s.len() > 0 {
        assert(s.drop_last() + seq!['\n'] =~= s);
    }
    assert(line_scan(s).1 =~= Seq::<char>::empty());
    lemma_line_scan_extends(s, l);
    let t = s + l + seq!['\n'];
    assert(t.drop_last() =~= s + l);
    assert(line_scan(s).1 + l =~= l);
}

/// A non-empty text without `\n` is one line, itself (a `\r` at its end kept, as `str::lines`
/// keeps it when no `\n` follows).
pub proof fn lemma_single_line(s: Seq<char>)
    requires
        s.len() > 0,
        char_free(s, '\n'),
    ensures
        text_lines(s) == seq![s],
{
    lemma_line_scan_extends(Seq::empty(), s);
    assert(Seq::<char>::empty() + s =~= s);
    assert(line_scan(Seq::<char>::empty()).1 + s =~= s);
}

/// Records come one per line that is not blank, in order: a blank line adds none, any other line
/// adds its own record after those of the lines before it.
pub proof fn lemma_records_one_per_line(lines: Seq<Seq<char>>, l: Seq<char>)
    ensures
        is_blank(l) ==> records_for_lines(lines.push(l)) == records_for_lines(lines),
        !is_blank(l) ==> records_for_lines(lines.push(l)) == records_for_lines(lines).push(
            record_for_line(l),
        ),
{
    assert(lines.push(l).drop_last() =~= lines);
}

/// The views of a vector of strings.
pub open spec fn lines_view(v: Seq<String>) -> Seq<Seq<char>> {
    v.map_values(|s: String| s@)
}

/// The lines of a text, as `str::lines` gives them.
pub fn lines_of(text: &Vec<char>) -> (lines: Vec<String>)
    ensures
        lines_view(lines@) == text_lines(text@),
{
    let n = text.len();
    let mut lines: Vec<String> = Vec::new();
    let mut start: usize = 0;
    for i in 0..n
        invariant
            n == text@.len(),
            start <= i,
            line_scan(text@.take(i as int)) == (
                lines_view(lines@),
                text@.subrange(start as int, i as int),
            ),
    {
        let ghost before = lines_view(lines@);
        proof {
            assert(text@.take(i + 1).drop_last() =~= text@.take(i as int));
            assert(text@.take(i + 1).last() == text@[i as int]);
        }
        if text[i] == '\n' {
            let end = if i > start && text[i - 1] == '\r' {
                i - 1
            } else {
                i
            };
            let line = substring(text, start, end);
            lines.push(line);
            proof {
                let cur = text@.subrange(start as int, i as int);
                assert(line@ =~= strip_cr(cur));
                assert(lines_view(lines@) =~= before.push(line@));
                assert(text@.subrange(i + 1, i + 1) =~= Seq::<char>::empty());
            }
            start = i + 1;
        } else {
            proof {
                assert(text@.subrange(start as int, i + 1) =~= text@.subrange(
                    start as int,
                    i as int,
                ).push(text@[i as int]));
            }
        }
    }
    assert(text@.take(n as int) =~= text@);
    if start < n {
        let line = substring(text, start, n);
        let ghost before = lines_view(lines@);
        lines.push(line);
        assert(lines_view(lines@) =~= before.push(line@));
    }
    lines
}

// ----- JSON objects -----

#[verifier::external_type_specification]
#[verifier::external_body]
pub struct ExJsonValue(serde_json::Value);

#[verifier::external_type_specification]
#[verifier::external_body]
#[verifier::reject_recursive_types(K)]
#[verifier::reject_recursive_types(V)]
pub struct ExJsonMap<K, V>(serde_json::Map<K, V>);

/// The members of a JSON object: each key, with its value if that value is a JSON string and
/// `None` if it is anything else.
pub uninterp spec fn json_members(m: serde_json::Map<String, serde_json::Value>) -> Map<
    Seq<char>,
    Option<Seq<char>>,
>;

/// The members (as `json_members` gives them) of the JSON object that a text holds; `None` when
/// the text is not a JSON object.
pub uninterp spec fn json_object_of(text: Seq<char>) -> Option<Map<Seq<char>, Option<Seq<char>>>>;

/// Calls `serde_json::from_str` to read a text as a JSON object. The contract names the result:
/// `Some` exactly when the text is a JSON object, holding that object's members.
#[verifier::external_body]
fn parse_json_object(text: &str) -> (r: Option<serde_json::Map<String, serde_json::Value>>)
    ensures
        r is Some == json_object_of(text@) is Some,
        r matches Some(m) ==> json_object_of(text@) == Some(json_members(m)),
{
    serde_json::from_str::<serde_json::Map<String, serde_json::Value>>(text).ok()
}

/// The string value of a member, as `json_members` records it.
pub open spec fn member_str(members: Map<Seq<char>, Option<Seq<char>>>, key: Seq<char>) -> Option<
    Seq<char>,
> {
    if members.contains_key(key) {
        members[key]
    } else {
        None
    }
}

/// Calls `serde_json::Map::get`, keeping the member's value only if it is a JSON string.
#[verifier::external_body]
fn json_string_member(m: &serde_json::Map<String, serde_json::Value>, key: &str) -> (r: Option<
    String,
>)
    ensures
        r is Some == member_str(json_members(*m), key@) is Some,
        r matches Some(s) ==> member_str(json_members(*m), key@) == Some(s@),
{
    match m.get(key) {
        Some(serde_json::Value::String(s)) => Some(s.clone()),
        Some(serde_json::Value::Null) => None,
        Some(serde_json::Value::Bool(_)) => None,
        Some(serde_json::Value::Number(_)) => None,
        Some(serde_json::Value::Array(_)) => None,
        Some(serde_json::Value::Object(_)) => None,
        None => None,
    }
}

// ----- RFC 3339 times -----

/// The UTC instant (seconds, nanoseconds) of an RFC 3339 date and time; `None` when the text is
/// not one.
pub uninterp spec fn rfc3339_utc(text: Seq<char>) -> Option<(i64, u32)>;

/// Calls `chrono::DateTime::parse_from_rfc3339` and reads the instant back with `timestamp` and
/// `timestamp_subsec_nanos`. The contract names the result and states the bound that chrono's
/// times keep: fewer than two billion nanoseconds past the second.
#[verifier::external_body]
fn parse_rfc3339_utc(text: &str) -> (r: Option<UtcTime>)
    ensures
        r is Some == rfc3339_utc(text@) is Some,
        r matches Some(t) ==> rfc3339_utc(text@) == Some((t.seconds, t.nanos)),
        r matches Some(t) ==> t.nanos < 2_000_000_000,
{
    chrono::DateTime::parse_from_rfc3339(text).ok().map(
        |dt| UtcTime { seconds: dt.timestamp(), nanos: dt.timestamp_subsec_nanos() },
    )
}

// ----- Records -----

/// The record that one output line becomes: a JSON object gives its `timestamp` member (if it is
/// an RFC 3339 string) and its `message` member (if it is a string, else the whole line); any
/// other line is a plain message with no time.
pub open spec fn record_for_line(line: Seq<char>) -> LogRecordView {
    match json_object_of(line) {
        Some(members) => LogRecordView {
            timestamp: match member_str(members, seq!['t', 'i', 'm', 'e', 's', 't', 'a', 'm', 'p']) {
                Some(t) => match rfc3339_utc(t) {
                    Some(p) => Some(UtcTime { seconds: p.0, nanos: p.1 }),
                    None => None,
                },
                None => None,
            },
            message: match member_str(members, seq!['m', 'e', 's', 's', 'a', 'g', 'e']) {
                Some(m) => m,
                None => line,
            },
        },
        None => LogRecordView { timestamp: None, message: line },
    }
}

/// How a line becomes a record, member by member. A JSON object's time comes from its
/// `timestamp` member alone: an RFC 3339 string gives that instant, whatever the other members
/// are, and anything else gives no time. Its message is its `message` member if that is a string,
/// else the whole line. A line that is not a JSON object is a message with no time.
pub proof fn lemma_record_fields(line: Seq<char>)
    ensures
        json_object_of(line) is None ==> record_for_line(line) == (LogRecordView {
            timestamp: None,
            message: line,
        }),
        json_object_of(line) matches Some(members) ==> {
            let r = record_for_line(line);
            &&& member_str(members, "timestamp"@) matches Some(t) ==> r.timestamp == match rfc3339_utc(
                t,
            ) {
                Some(p) => Some(UtcTime { seconds: p.0, nanos: p.1 }),
                None => None,
            }
            &&& member_str(members, "timestamp"@) is None ==> r.timestamp is None
            &&& member_str(members, "message"@) matches Some(m) ==> r.message == m
            &&& member_str(members, "message"@) is None ==> r.message == line
        },
{
    reveal_strlit("timestamp");
    reveal_strlit("message");
    assert("timestamp"@ =~= seq!['t', 'i', 'm', 'e', 's', 't', 'a', 'm', 'p']);
    assert("message"@ =~= seq!['m', 'e', 's', 's', 'a', 'g', 'e']);
}

/// The records for a sequence of lines, in order, leaving out blank lines.
pub open spec fn records_for_lines(lines: Seq<Seq<char>>) -> Seq<LogRecordView>
    decreases lines.len(),
{
    if lines.len() == 0 {
        Seq::empty()
    } else {
        let rest = records_for_lines(lines.drop_last());
        if is_blank(lines.last()) {
            rest
        } else {
            rest.push(record_for_line(lines.last()))
        }
    }
}

/// The records that a chunk of output holds.
pub open spec fn output_records(buf: Seq<u8>) -> Seq<LogRecordView> {
    records_for_lines(text_lines(utf8_lossy(buf)))
}

/// The record for one output line.
pub fn record_for(line: &String) -> (r: LogRecord)
    ensures
        r@ == record_for_line(line@),
{
    proof {
        reveal_strlit("timestamp");
        reveal_strlit("message");
        assert("timestamp"@ =~= seq!['t', 'i', 'm', 'e', 's', 't', 'a', 'm', 'p']);
        assert("message"@ =~= seq!['m', 'e', 's', 's', 'a', 'g', 'e']);
    }
    match parse_json_object(line.as_str()) {
        Some(object) => {
            let timestamp = match json_string_member(&object, "timestamp") {
                Some(t) => parse_rfc3339_utc(t.as_str()),
                None => None,
            };
            let message = match json_string_member(&object, "message") {
                Some(m) => m,
                None => line.clone(),
            };
            LogRecord { timestamp, message }
        },
        None => LogRecord { timestamp: None, message: line.clone() },
    }
}

/// The records that a chunk of output holds: one per line that is not blank, in order.
pub fn decode_output(buf: &[u8]) -> (records: Vec<LogRecord>)
    ensures
        records_view(records@) == output_records(buf@),
{
    let text = decode_utf8_lossy(buf);
    let chars = chars_of(text.as_str());
    let lines = lines_of(&chars);
    let ghost lv = lines_view(lines@);
    let mut records: Vec<LogRecord> = Vec::new();
    for i in 0..lines.len()
        invariant
            lv == lines_view(lines@),
            lv == text_lines(utf8_lossy(buf@)),
            records_view(records@) == records_for_lines(lv.take(i as int)),
    {
        let ghost before = records_view(records@);
        proof {
            assert(lv.take(i + 1).drop_last() =~= lv.take(i as int));
            assert(lv.take(i + 1).last() == lines@[i as int]@);
        }
        let line_chars = chars_of(lines[i].as_str());
        if !is_blank_chars(&line_chars) {
            let record = record_for(&lines[i]);
            records.push(record);
            assert(records_view(records@) =~= before.push(record@));
        }
    }
    assert(lv.take(lines@.len() as int) =~= lv);
    records
}

// ----- The channel -----

#[verifier::external_type_specification]
#[verifier::external_body]
#[verifier::reject_recursive_types(T)]
pub struct ExSender<T>(tokio::sync::mpsc::Sender<T>);

/// What came of offering a record to the channel.
#[derive(Debug, Clone, Copy, PartialEq, Eq, Structural)]
pub enum SendOutcome {
    Sent,
    Full,
    Closed,
}

/// The sending side of the output channel, with the history of every record handed to it and
/// what came of each.
pub struct RecordSender {
    tx: tokio::sync::mpsc::Sender<LogRecord>,
    sent: Ghost<Seq<(LogRecordView, SendOutcome)>>,
}

impl RecordSender {
    /// Every record handed to the channel so far, in order, with what came of it.
    pub closed spec fn history(self) -> Seq<(LogRecordView, SendOutcome)> {
        self.sent@
    }

    pub fn new(tx: tokio::sync::mpsc::Sender<LogRecord>) -> (s: Self)
        ensures
            s.history() == Seq::<(LogRecordView, SendOutcome)>::empty(),
    {
        RecordSender { tx, sent: Ghost(Seq::empty()) }
    }
}

/// Calls `tokio::sync::mpsc::Sender::try_send` with the record, which is moved into the channel
/// or dropped. The contract records in the sender's history that this record was handed over
/// and what came back; whether the channel had room, or was closed, depends on its state at the
/// time, so nothing is stated of which outcome comes.
#[verifier::external_body]
fn try_send_record(sender: &mut RecordSender, record: LogRecord) -> (r: SendOutcome)
    ensures
        final(sender).history() == old(sender).history().push((record@, r)),
{
    match sender.tx.try_send(record) {
        Ok(()) => SendOutcome::Sent,
        Err(tokio::sync::mpsc::error::TrySendError::Full(_)) => SendOutcome::Full,
        Err(tokio::sync::mpsc::error::TrySendError::Closed(_)) => SendOutcome::Closed,
    }
}

/// Whether a write goes on after a send: a full channel drops the record and the write goes on;
/// a closed channel ends it.
pub fn goes_on_after(outcome: SendOutcome) -> (r: bool)
    ensures
        r == (outcome != SendOutcome::Closed),
{
    match outcome {
        SendOutcome::Sent => true,
        SendOutcome::Full => true,
        SendOutcome::Closed => false,
    }
}

/// The receiving side of the output channel has gone away.
#[derive(Debug, Clone, Copy, PartialEq, Eq, Structural)]
pub struct OutputChannelClosed;

/// `sent` is how a write of `records` went: the records were handed to the channel in order, one
/// send each, and every send before the last came back `Sent` or `Full`.
pub open spec fn sent_in_order(
    sent: Seq<(LogRecordView, SendOutcome)>,
    records: Seq<LogRecordView>,
) -> bool {
    &&& sent.len() <= records.len()
    &&& forall|i: int| 0 <= i < sent.len() ==> (#[trigger] sent[i]).0 == records[i]
    &&& forall|i: int| 0 <= i < sent.len() - 1 ==> (#[trigger] sent[i]).1 != SendOutcome::Closed
}

/// The sends of a write ended at a closed channel.
pub open spec fn ended_closed(sent: Seq<(LogRecordView, SendOutcome)>) -> bool {
    sent.len() > 0 && sent.last().1 == SendOutcome::Closed
}

/// Turns output into log records and offers each to a channel; a record that finds the channel
/// full is dropped, and a closed channel ends the write.
pub struct ChannelWriter {
    sender: RecordSender,
}

impl ChannelWriter {
    /// Every record handed to the channel so far, in order, with what came of it.
    pub closed spec fn history(self) -> Seq<(LogRecordView, SendOutcome)> {
        self.sender.history()
    }

    pub fn new(output_tx: tokio::sync::mpsc::Sender<LogRecord>) -> (w: Self)
        ensures
            w.history() == Seq::<(LogRecordView, SendOutcome)>::empty(),
    {
        ChannelWriter { sender: RecordSender::new(output_tx) }
    }

    /// Hands the records of `buf` to the channel, in order. The whole chunk counts as written
    /// when every record was handed over and none found the channel closed (a record that found
    /// it full was dropped); the write stops with an error at the first record that finds the
    /// channel closed.
    pub fn write(&mut self, buf: &[u8]) -> (r: Result<usize, OutputChannelClosed>)
        ensures
            ({
                let h0 = old(self).history();
                let h1 = final(self).history();
                let sent = h1.skip(h0.len() as int);
                let records = output_records(buf@);
                &&& h0.len() <= h1.len()
                &&& h1.take(h0.len() as int) == h0
                &&& sent_in_order(sent, records)
                &&& r is Err <==> ended_closed(sent)
                &&& r is Ok <==> sent.len() == records.len() && !ended_closed(sent)
                &&& r matches Ok(n) ==> n == buf@.len()
            }),
    {
        let mut records = decode_output(buf);
        let ghost all = records_view(records@);
        let ghost h0 = self.sender.history();
        let n = records.len();
        // Reverse the records, so that popping hands them out in order without copying them.
        let mut pending: Vec<LogRecord> = Vec::new();
        while records.len() > 0
            invariant
                n == all.len(),
                all == output_records(buf@),
                records@.len() + pending@.len() == n,
                forall|j: int| 0 <= j < records@.len() ==> (#[trigger] records@[j])@ == all[j],
                forall|j: int|
                    0 <= j < pending@.len() ==> (#[trigger] pending@[j])@ == all[n - 1 - j],
            decreases records@.len(),
        {
            let ghost k = records@.len() - 1;
            let record = records.pop().unwrap();
            assert(record@ == all[k]);
            pending.push(record);
        }
        let mut i: usize = 0;
        while i < n
            invariant
                n == all.len(),
                all == output_records(buf@),
                i <= n,
                pending@.len() == n - i,
                forall|j: int|
                    0 <= j < pending@.len() ==> (#[trigger] pending@[j])@ == all[n - 1 - j],
                h0 == old(self).history(),
                self.sender.history().len() == h0.len() + i,
                self.sender.history().take(h0.len() as int) == h0,
                sent_in_order(self.sender.history().skip(h0.len() as int), all),
                forall|j: int|
                    0 <= j < i ==> (#[trigger] self.sender.history().skip(h0.len() as int)[j]).1
                        != SendOutcome::Closed,
            decreases n - i,
        {
            let ghost before = self.sender.history();
            let record = pending.pop().unwrap();
            assert(record@ == all[i as int]);
            let outcome = try_send_record(&mut self.sender, record);
            let ghost after = self.sender.history();
            proof {
                assert(after.take(h0.len() as int) =~= before.take(h0.len() as int));
                assert(after.skip(h0.len() as int) =~= before.skip(h0.len() as int).push(
                    (all[i as int], outcome),
                ));
            }
            if !goes_on_after(outcome) {
                return Err(OutputChannelClosed);
            }
            i = i + 1;
        }
        Ok(buf.len())
    }

    /// Nothing is buffered: there is nothing to flush.
    pub fn flush(&mut self) -> (r: Result<(), OutputChannelClosed>)
        ensures
            r is Ok,
            final(self).history() == old(self).history(),
    {
        Ok(())
    }
}

} // verus!

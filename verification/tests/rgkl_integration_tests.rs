use std::sync::Arc;

use cluster_agent::config::Config;
use cluster_agent::rgkl_integration::{
    decode_output, goes_on_after, lines_of, record_for, ChannelWriter, FollowFromType,
    OutputChannelClosed, SendOutcome,
    RgklIntegration, UtcTime,
};
use cluster_agent::text::chars_of;

#[test]
fn rgkl_integration_test_follow_from_conversion() {
    assert!(matches!(FollowFromType::Noop, FollowFromType::Noop));
    assert!(matches!(FollowFromType::Default, FollowFromType::Default));
    assert!(matches!(FollowFromType::End, FollowFromType::End));
}

#[test]
fn test_channel_writer_json() {
    let (tx, mut rx) = tokio::sync::mpsc::channel(10);
    let mut writer = ChannelWriter::new(tx);
    let json_line = r#"{"timestamp":"2023-01-01T12:00:00Z","message":"test message"}"#;
    assert_eq!(writer.write(json_line.as_bytes()).unwrap(), json_line.len());
    let record = rx.try_recv().unwrap();
    assert_eq!(record.message, "test message");
    assert!(record.timestamp.is_some());
    assert_eq!(record.timestamp, Some(UtcTime { seconds: 1672574400, nanos: 0 }));
}

#[test]
fn test_channel_writer_plain_text() {
    let (tx, mut rx) = tokio::sync::mpsc::channel(10);
    let mut writer = ChannelWriter::new(tx);
    let plain_text = "plain text message";
    writer.write(plain_text.as_bytes()).unwrap();
    let record = rx.try_recv().unwrap();
    assert_eq!(record.message, "plain text message");
    assert!(record.timestamp.is_none());
}

#[test]
fn channel_writer_full_and_closed() {
    let (tx, mut rx) = tokio::sync::mpsc::channel(1);
    let mut writer = ChannelWriter::new(tx);
    // The second record finds the channel full and is dropped.
    assert_eq!(writer.write(b"one\ntwo\n").unwrap(), 8);
    assert_eq!(rx.try_recv().unwrap().message, "one");
    assert!(rx.try_recv().is_err());
    drop(rx);
    assert_eq!(writer.write(b"three"), Err(OutputChannelClosed));
    assert!(writer.flush().is_ok());
}

#[test]
fn test_rgkl_integration_creation() {
    let config = Arc::new(Config::default());
    let integration = RgklIntegration::new(config);
    assert!(!integration.config().container_logs_dir.is_empty());
}

#[test]
fn lines_like_str_lines() {
    for text in ["", "a", "a\n", "a\r\nb", "a\rb\n", "\n\n", "x\r", "x\r\r\n", "a\n\nb\r\n"] {
        let got = lines_of(&chars_of(text));
        let want: Vec<String> = text.lines().map(|l| l.to_string()).collect();
        assert_eq!(got, want, "{:?}", text);
    }
}

#[test]
fn output_records() {
    let buf = "{\"message\":\"m1\",\"timestamp\":\"2023-01-01T00:00:00.25+00:00\"}\r\n   \n\
               {\"message\":5}\n[1,2]\n{\"timestamp\":\"nope\"}\nplain";
    let records = decode_output(buf.as_bytes());
    assert_eq!(records.len(), 5);
    assert_eq!(records[0].message, "m1");
    assert_eq!(records[0].timestamp, Some(UtcTime { seconds: 1672531200, nanos: 250_000_000 }));
    assert_eq!(records[1].message, "{\"message\":5}");
    assert_eq!(records[1].timestamp, None);
    assert_eq!(records[2].message, "[1,2]");
    assert_eq!(records[3].message, "{\"timestamp\":\"nope\"}");
    assert_eq!(records[3].timestamp, None);
    assert_eq!(records[4].message, "plain");
}

#[test]
fn output_with_invalid_utf8() {
    let records = decode_output(b"ab\xffcd\n\t \x0b\n");
    assert_eq!(records.len(), 1);
    assert_eq!(records[0].message, "ab\u{FFFD}cd");
}

#[test]
fn record_for_duplicate_keys() {
    let r = record_for(&"{\"message\":\"a\",\"message\":\"b\"}".to_string());
    assert_eq!(r.message, "b");
}

#[test]
fn channel_writer_records_in_order() {
    let (tx, mut rx) = tokio::sync::mpsc::channel(10);
    let mut writer = ChannelWriter::new(tx);
    let buf = "{\"timestamp\":\"2023-01-01T14:00:00+02:00\",\"message\":\"m\"}\n\
               {\"timestamp\":\"yesterday\",\"message\":\"n\"}\n\n{\"level\":\"info\"}";
    assert_eq!(writer.write(buf.as_bytes()).unwrap(), buf.len());
    let r = rx.try_recv().unwrap();
    assert_eq!((r.message.as_str(), r.timestamp), ("m", Some(UtcTime { seconds: 1672574400, nanos: 0 })));
    let r = rx.try_recv().unwrap();
    assert_eq!((r.message.as_str(), r.timestamp), ("n", None));
    let r = rx.try_recv().unwrap();
    assert_eq!((r.message.as_str(), r.timestamp), ("{\"level\":\"info\"}", None));
    assert!(rx.try_recv().is_err());
    let (tx, mut rx) = tokio::sync::mpsc::channel(10);
    let mut writer = ChannelWriter::new(tx);
    assert_eq!(writer.write(&[0xFF, b'a']).unwrap(), 2);
    assert_eq!(rx.try_recv().unwrap().message, "\u{FFFD}a");
}

#[test]
fn channel_writer_closed_receiver() {
    let (tx, rx) = tokio::sync::mpsc::channel::<cluster_agent::rgkl_integration::LogRecord>(4);
    drop(rx);
    let mut writer = ChannelWriter::new(tx);
    // With no record to hand over, the write succeeds.
    assert_eq!(writer.write(b" \n\t\n"), Ok(4));
    assert_eq!(writer.write(b""), Ok(0));
    assert_eq!(writer.write(b"a\nb"), Err(OutputChannelClosed));
}

#[test]
fn sends_that_go_on() {
    assert!(goes_on_after(SendOutcome::Sent));
    assert!(goes_on_after(SendOutcome::Full));
    assert!(!goes_on_after(SendOutcome::Closed));
}

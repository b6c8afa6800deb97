use logstash::{
    flow_of, Command, DispatchEngine, Error, Flow, Level, LogStashRecord, Received, Sender,
};

#[derive(Debug, Clone, PartialEq)]
enum Call {
    One(String),
    Many(Vec<String>),
    Flush,
}

#[derive(Default)]
struct Recorder {
    calls: Vec<Call>,
    fail_on: Option<(String, bool)>,
}

impl Recorder {
    fn check(&self, target: &str) -> Result<(), Error> {
        match &self.fail_on {
            Some((t, fatal)) if t == target => Err(Error::Transport {
                fatal: *fatal,
                message: format!("cannot send {}", t),
            }),
            _ => Ok(()),
        }
    }
}

impl Sender for Recorder {
    fn send(&mut self, event: LogStashRecord) -> Result<(), Error> {
        self.calls.push(Call::One(event.target.clone()));
        self.check(&event.target)
    }

    fn send_batch(&mut self, events: Vec<LogStashRecord>) -> Result<(), Error> {
        let names: Vec<String> = events.iter().map(|e| e.target.clone()).collect();
        self.calls.push(Call::Many(names.clone()));
        for n in &names {
            self.check(n)?;
        }
        Ok(())
    }

    fn flush(&mut self) -> Result<(), Error> {
        self.calls.push(Call::Flush);
        self.check("flush")
    }
}

fn rec(level: Level, name: &str) -> LogStashRecord {
    let mut r = LogStashRecord::new();
    r.level = level;
    r.target = name.to_string();
    r
}

fn send(level: Level, name: &str) -> Received {
    Received::Command(Command::Send(rec(level, name)))
}

fn one(n: &str) -> Call {
    Call::One(n.to_string())
}

fn many(ns: &[&str]) -> Call {
    Call::Many(ns.iter().map(|s| s.to_string()).collect())
}

fn engine(
    size: Option<usize>,
    lifetime: Option<u64>,
    threshold: Level,
) -> DispatchEngine<Recorder> {
    DispatchEngine::new(Recorder::default(), size, lifetime, threshold)
}

fn is_continue(f: &Flow) -> bool {
    matches!(f, Flow::Continue)
}

#[test]
fn size_three_batch_then_error_bypasses() {
    let mut e = engine(Some(3), None, Level::Error);
    assert!(is_continue(&e.step(send(Level::Info, "a"), 0)));
    assert!(is_continue(&e.step(send(Level::Info, "b"), 0)));
    assert!(e.sender().calls.is_empty());
    assert!(is_continue(&e.step(send(Level::Info, "c"), 0)));
    assert_eq!(e.sender().calls, vec![many(&["a", "b", "c"]), Call::Flush]);
    assert_eq!(e.buffered_len(), 0);
    assert!(is_continue(&e.step(send(Level::Info, "d"), 0)));
    assert!(is_continue(&e.step(send(Level::Error, "x"), 0)));
    assert_eq!(
        e.sender().calls,
        vec![many(&["a", "b", "c"]), Call::Flush, one("x")]
    );
    assert_eq!(e.buffered_len(), 1);
}

#[test]
fn full_batches_in_arrival_order() {
    let mut e = engine(Some(2), None, Level::Error);
    let batch: Vec<LogStashRecord> = ["a", "b", "c", "d", "e"]
        .iter()
        .map(|n| rec(Level::Info, n))
        .collect();
    assert!(is_continue(&e.step(Received::Command(Command::SendBatch(batch)), 0)));
    assert_eq!(
        e.sender().calls,
        vec![many(&["a", "b"]), Call::Flush, many(&["c", "d"]), Call::Flush]
    );
    assert_eq!(e.buffered_len(), 1);
    assert!(is_continue(&e.step(Received::Command(Command::Flush), 0)));
    assert_eq!(
        e.sender().calls,
        vec![
            many(&["a", "b"]),
            Call::Flush,
            many(&["c", "d"]),
            Call::Flush,
            many(&["e"]),
            Call::Flush
        ]
    );
}

#[test]
fn severe_records_skip_the_batch() {
    let mut e = engine(Some(5), None, Level::Warn);
    e.step(send(Level::Debug, "a"), 0);
    e.step(send(Level::Warn, "w"), 0);
    e.step(send(Level::Error, "x"), 0);
    assert_eq!(e.sender().calls, vec![one("w"), one("x")]);
    assert_eq!(e.buffered_len(), 1);
}

#[test]
fn no_size_limit_sends_everything_at_once() {
    let mut e = engine(None, Some(100), Level::Error);
    e.step(send(Level::Trace, "a"), 0);
    e.step(send(Level::Info, "b"), 0);
    e.step(send(Level::Error, "c"), 0);
    assert_eq!(e.sender().calls, vec![one("a"), one("b"), one("c")]);
    assert_eq!(e.buffered_len(), 0);
    assert_eq!(e.deadline(), None);
    assert_eq!(e.wait_timeout(5), None);
}

#[test]
fn flush_of_empty_batch_only_flushes() {
    let mut e = engine(Some(3), None, Level::Error);
    assert!(is_continue(&e.step(Received::Command(Command::Flush), 0)));
    assert!(is_continue(&e.step(Received::Command(Command::Flush), 0)));
    assert_eq!(e.sender().calls, vec![Call::Flush, Call::Flush]);
}

#[test]
fn batch_drained_when_lifetime_passes() {
    let mut e = engine(Some(5), Some(100), Level::Error);
    assert_eq!(e.wait_timeout(0), None);
    e.step(send(Level::Info, "a"), 1000);
    assert_eq!(e.deadline(), Some(1100));
    e.step(send(Level::Info, "b"), 1040);
    assert_eq!(e.deadline(), Some(1100));
    assert_eq!(e.wait_timeout(1050), Some(50));
    assert_eq!(e.wait_timeout(1200), Some(0));
    assert!(e.sender().calls.is_empty());
    assert!(is_continue(&e.step(Received::Timeout, 1100)));
    assert_eq!(e.sender().calls, vec![many(&["a", "b"]), Call::Flush]);
    assert_eq!(e.deadline(), None);
    assert_eq!(e.wait_timeout(1200), None);
}

#[test]
fn deadline_saturates() {
    let mut e = engine(Some(5), Some(u64::MAX), Level::Error);
    e.step(send(Level::Info, "a"), 10);
    assert_eq!(e.deadline(), Some(u64::MAX));
}

#[test]
fn mixed_severities_keep_order() {
    let mut e = engine(Some(2), None, Level::Error);
    let batch = vec![
        rec(Level::Info, "a"),
        rec(Level::Error, "x"),
        rec(Level::Info, "b"),
        rec(Level::Info, "c"),
        rec(Level::Error, "y"),
    ];
    e.step(Received::Command(Command::SendBatch(batch)), 0);
    assert_eq!(
        e.sender().calls,
        vec![one("x"), many(&["a", "b"]), Call::Flush, one("y")]
    );
    assert_eq!(e.buffered_len(), 1);
}

#[test]
fn closed_channel_stops_without_drain() {
    let mut e = engine(Some(3), Some(10), Level::Error);
    e.step(send(Level::Info, "a"), 0);
    assert!(matches!(e.step(Received::Disconnected, 5), Flow::Stopped));
    assert!(e.sender().calls.is_empty());
    assert_eq!(e.buffered_len(), 1);
}

#[test]
fn recoverable_error_drops_rest_of_batch() {
    let mut rec_sender = Recorder::default();
    rec_sender.fail_on = Some(("b".to_string(), false));
    let mut e = DispatchEngine::new(rec_sender, None, None, Level::Error);
    let batch = vec![
        rec(Level::Info, "a"),
        rec(Level::Info, "b"),
        rec(Level::Info, "c"),
    ];
    let flow = e.step(Received::Command(Command::SendBatch(batch)), 0);
    assert!(matches!(flow, Flow::Recovered(Error::Transport { fatal: false, .. })));
    assert_eq!(e.sender().calls, vec![one("a"), one("b")]);
    assert!(is_continue(&e.step(send(Level::Info, "d"), 0)));
}

#[test]
fn fatal_error_fails_the_step() {
    let mut rec_sender = Recorder::default();
    rec_sender.fail_on = Some(("flush".to_string(), true));
    let mut e = DispatchEngine::new(rec_sender, Some(1), None, Level::Error);
    let flow = e.step(send(Level::Info, "a"), 0);
    assert!(matches!(flow, Flow::Failed(Error::Transport { fatal: true, .. })));
    assert_eq!(e.sender().calls, vec![many(&["a"]), Call::Flush]);
    assert_eq!(e.buffered_len(), 0);
}

#[test]
fn failed_batch_send_is_dropped() {
    let mut rec_sender = Recorder::default();
    rec_sender.fail_on = Some(("a".to_string(), false));
    let mut e = DispatchEngine::new(rec_sender, Some(2), Some(50), Level::Error);
    e.step(send(Level::Info, "a"), 0);
    let flow = e.step(send(Level::Info, "b"), 0);
    assert!(matches!(flow, Flow::Recovered(_)));
    assert_eq!(e.sender().calls, vec![many(&["a", "b"])]);
    assert_eq!(e.buffered_len(), 0);
    assert_eq!(e.deadline(), None);
}

#[test]
fn zero_size_limit_drains_each_record() {
    let mut e = engine(Some(0), None, Level::Error);
    e.step(send(Level::Info, "a"), 0);
    assert_eq!(e.sender().calls, vec![many(&["a"]), Call::Flush]);
}

#[test]
fn error_fatality() {
    assert!(Error::ChannelClosed.is_fatal());
    assert!(Error::FatalInternal("x".to_string()).is_fatal());
    assert!(Error::Transport { fatal: true, message: String::new() }.is_fatal());
    assert!(!Error::Transport { fatal: false, message: String::new() }.is_fatal());
}

#[test]
fn level_ranks() {
    assert_eq!(Level::Error.severity(), 5);
    assert_eq!(Level::Trace.severity(), 1);
    assert!(Level::Error.at_least(&Level::Warn));
    assert!(Level::Warn.at_least(&Level::Warn));
    assert!(!Level::Info.at_least(&Level::Warn));
    assert!(!Level::Trace.at_least(&Level::Debug));
}

#[test]
fn flow_of_maps_results() {
    assert!(matches!(flow_of(Ok(())), Flow::Continue));
    assert!(matches!(flow_of(Err(Error::ChannelClosed)), Flow::Failed(Error::ChannelClosed)));
    let e = Error::Transport { fatal: false, message: "x".to_string() };
    assert!(matches!(flow_of(Err(e)), Flow::Recovered(Error::Transport { fatal: false, .. })));
}

#[test]
fn failed_batch_keeps_earlier_records() {
    let mut rec_sender = Recorder::default();
    rec_sender.fail_on = Some(("x".to_string(), false));
    let mut e = DispatchEngine::new(rec_sender, Some(5), None, Level::Error);
    let batch = vec![
        rec(Level::Info, "a"),
        rec(Level::Error, "x"),
        rec(Level::Info, "b"),
    ];
    assert!(e.send_batch(batch).is_err());
    assert_eq!(e.sender().calls, vec![one("x")]);
    assert_eq!(e.buffered_len(), 1);
    assert!(e.flush().is_ok());
    assert_eq!(e.sender().calls, vec![one("x"), many(&["a"]), Call::Flush]);
}

#[test]
fn failed_bypass_send_leaves_batch() {
    let mut rec_sender = Recorder::default();
    rec_sender.fail_on = Some(("x".to_string(), true));
    let mut e = DispatchEngine::new(rec_sender, Some(5), Some(10), Level::Warn);
    assert!(e.send(rec(Level::Info, "a")).is_ok());
    assert!(matches!(
        e.send(rec(Level::Warn, "x")),
        Err(Error::Transport { fatal: true, .. })
    ));
    assert_eq!(e.sender().calls, vec![one("x")]);
    assert_eq!(e.buffered_len(), 1);
}

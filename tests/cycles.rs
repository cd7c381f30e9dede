use std::collections::VecDeque;

use diag_terminal::{
    encode_header, heartbeat_message, Action, CommKind, Event, Terminal, TransportError,
};

/// Stand-ins for the log buffer and the transport, driven by the terminal.
struct Rig {
    records: VecDeque<Vec<u8>>,
    taken: Option<Vec<u8>>,
    written: Vec<Vec<u8>>,
    fail_on_write: Option<usize>,
    writes: usize,
    released: Vec<Vec<u8>>,
    connects: usize,
}

impl Rig {
    fn new(records: Vec<Vec<u8>>) -> Rig {
        Rig {
            records: records.into(),
            taken: None,
            written: Vec::new(),
            fail_on_write: None,
            writes: 0,
            released: Vec::new(),
            connects: 0,
        }
    }

    fn perform(&mut self, a: Action) -> Event {
        match a {
            Action::AwaitConnection => {
                self.connects += 1;
                Event::Connected
            }
            Action::TakeRecord => {
                self.taken = self.records.front().cloned();
                Event::Taken(self.taken.clone())
            }
            Action::WritePacket(p) => {
                self.writes += 1;
                if self.fail_on_write == Some(self.writes) {
                    Event::Written(Err(TransportError))
                } else {
                    self.written.push(p);
                    Event::Written(Ok(()))
                }
            }
            Action::Release(n) => {
                let r = self.records.pop_front().unwrap();
                assert_eq!(r.len(), n);
                assert_eq!(Some(&r), self.taken.as_ref());
                self.released.push(r);
                Event::Released
            }
            Action::Sleep(_) => Event::Woke,
        }
    }

    /// Runs until the terminal asks to sleep and returns the delay.
    fn cycle(&mut self, t: &mut Terminal, first: Action) -> u64 {
        let mut a = first;
        loop {
            if let Action::Sleep(d) = a {
                return d;
            }
            let e = self.perform(a);
            a = t.step(e);
        }
    }
}

fn header(kind: CommKind, n: usize) -> Vec<u8> {
    encode_header(kind, n).unwrap()
}

#[test]
fn heartbeat_when_log_empty() {
    let mut t = Terminal::new(64, 10, 1000, 3);
    let mut rig = Rig::new(vec![]);
    let d = rig.cycle(&mut t, Action::AwaitConnection);
    assert_eq!(d, 1000);
    let msg = heartbeat_message();
    assert_eq!(msg.len(), 21);
    assert_eq!(msg, b"heartbeat message: <3".to_vec());
    assert_eq!(&rig.written[0][..4], b"S21\0");
    assert_eq!(rig.written, vec![header(CommKind::Heartbeat, 21), msg, vec![b'\n']]);
    assert!(t.is_connected);
    assert_eq!(rig.connects, 1);
}

#[test]
fn record_of_130_bytes_in_three_packets() {
    let rec: Vec<u8> = (0..130u32).map(|i| (i * 7) as u8).collect();
    let mut t = Terminal::new(64, 10, 1000, 3);
    let mut rig = Rig::new(vec![rec.clone()]);
    let mut a = t.pending_action();
    assert!(matches!(a, Action::AwaitConnection));
    a = t.step(rig.perform(a));
    assert!(matches!(a, Action::TakeRecord));
    a = t.step(rig.perform(a));
    let mut sizes = Vec::new();
    while let Action::WritePacket(p) = &a {
        sizes.push(p.len());
        assert!(rig.released.is_empty());
        a = t.step(rig.perform(a));
    }
    assert_eq!(sizes, vec![16, 64, 64, 2, 1]);
    assert!(matches!(a, Action::Release(130)));
    assert!(rig.released.is_empty());
    a = t.step(rig.perform(a));
    assert!(matches!(a, Action::Sleep(10)));
    assert_eq!(rig.released, vec![rec.clone()]);
    assert_eq!(&rig.written[0][..5], b"D130\0");
    assert_eq!(rig.written[1..4].concat(), rec);
}

#[test]
fn failed_packet_keeps_record_for_next_cycle() {
    let rec: Vec<u8> = (0..130u32).map(|i| i as u8).collect();
    let mut t = Terminal::new(64, 10, 1000, 3);
    let mut rig = Rig::new(vec![rec.clone()]);
    // header is write 1, the first payload packet write 2, the second write 3
    rig.fail_on_write = Some(3);
    let d = rig.cycle(&mut t, Action::AwaitConnection);
    assert_eq!(d, 10);
    assert_eq!(rig.writes, 3);
    assert_eq!(rig.written.len(), 2);
    assert!(rig.released.is_empty());
    assert_eq!(rig.records.len(), 1);

    let first_try = rig.written.clone();
    rig.written.clear();
    let a = t.step(Event::Woke);
    assert!(matches!(a, Action::TakeRecord));
    let d = rig.cycle(&mut t, a);
    assert_eq!(d, 10);
    assert_eq!(rig.written.len(), 5);
    assert_eq!(rig.written[..2], first_try[..]);
    assert_eq!(rig.written[1..4].concat(), rec);
    assert_eq!(rig.released, vec![rec]);
    assert_eq!(rig.connects, 1);
}

#[test]
fn failed_header_ends_cycle() {
    let mut t = Terminal::new(64, 10, 1000, 3);
    let mut rig = Rig::new(vec![vec![1, 2, 3]]);
    rig.fail_on_write = Some(1);
    assert_eq!(rig.cycle(&mut t, Action::AwaitConnection), 10);
    assert!(rig.written.is_empty());
    assert!(rig.released.is_empty());
}

#[test]
fn failed_heartbeat_is_not_retried() {
    let mut t = Terminal::new(64, 10, 1000, 3);
    let mut rig = Rig::new(vec![]);
    rig.fail_on_write = Some(2);
    assert_eq!(rig.cycle(&mut t, Action::AwaitConnection), 1000);
    assert_eq!(rig.written.len(), 1);
    let a = t.step(Event::Woke);
    assert!(matches!(a, Action::TakeRecord));
    rig.written.clear();
    assert_eq!(rig.cycle(&mut t, a), 1000);
    assert_eq!(rig.written.len(), 3);
}

#[test]
fn record_preempts_heartbeat() {
    let mut t = Terminal::new(8, 10, 1000, 3);
    let mut rig = Rig::new(vec![b"abc".to_vec(), b"defghijklmno".to_vec()]);
    assert_eq!(rig.cycle(&mut t, Action::AwaitConnection), 10);
    let a = t.step(Event::Woke);
    assert_eq!(rig.cycle(&mut t, a), 10);
    assert!(rig.written.iter().all(|p| p[0] != b'S'));
    assert_eq!(rig.written.len(), 3 + 4);
    assert_eq!(rig.written[3][0], b'D');
    assert_eq!(rig.written[4], b"defghijk".to_vec());
    assert_eq!(rig.written[5], b"lmno".to_vec());
    let a = t.step(Event::Woke);
    assert_eq!(rig.cycle(&mut t, a), 1000);
    assert_eq!(rig.written[7][0], b'S');
}

#[test]
fn delays_follow_outcome() {
    let mut t = Terminal::new(64, 25, 4000, 3);
    let mut rig = Rig::new(vec![vec![9; 5]]);
    assert_eq!(rig.cycle(&mut t, Action::AwaitConnection), 25);
    let a = t.step(Event::Woke);
    assert_eq!(rig.cycle(&mut t, a), 4000);
    assert!(matches!(t.pending_action(), Action::Sleep(4000)));
}

#[test]
fn unexpected_events_change_nothing() {
    let mut t = Terminal::new(64, 10, 1000, 3);
    assert!(matches!(t.step(Event::Woke), Action::AwaitConnection));
    assert!(matches!(t.step(Event::Released), Action::AwaitConnection));
    assert!(matches!(t.step(Event::Taken(None)), Action::AwaitConnection));
    assert!(!t.is_connected);
    assert!(matches!(t.step(Event::Connected), Action::TakeRecord));
    assert!(matches!(t.step(Event::Written(Ok(()))), Action::TakeRecord));
    assert!(matches!(t.step(Event::Connected), Action::TakeRecord));
}

#[test]
fn init_forgets_connection() {
    let mut t = Terminal::new(64, 10, 1000, 3);
    assert!(matches!(t.step(Event::Connected), Action::TakeRecord));
    assert!(t.is_connected);
    t.init();
    assert!(!t.is_connected);
    assert!(matches!(t.pending_action(), Action::AwaitConnection));
}

#[test]
fn repeated_failures_wait_for_new_connection() {
    let mut t = Terminal::new(64, 10, 1000, 2);
    let mut rig = Rig::new(vec![vec![5; 3]]);
    rig.fail_on_write = Some(1);
    assert_eq!(rig.cycle(&mut t, Action::AwaitConnection), 10);
    assert!(t.is_connected);
    let a = t.step(Event::Woke);
    assert!(matches!(a, Action::TakeRecord));
    rig.writes = 0;
    assert_eq!(rig.cycle(&mut t, a), 10);
    assert!(!t.is_connected);
    assert!(matches!(t.step(Event::Woke), Action::AwaitConnection));
    rig.fail_on_write = None;
    assert_eq!(rig.cycle(&mut t, Action::AwaitConnection), 10);
    assert_eq!(rig.connects, 2);
    assert_eq!(rig.released, vec![vec![5; 3]]);
}

#[test]
fn success_resets_failure_count() {
    let mut t = Terminal::new(64, 10, 1000, 2);
    let mut rig = Rig::new(vec![]);
    rig.fail_on_write = Some(1);
    assert_eq!(rig.cycle(&mut t, Action::AwaitConnection), 1000);
    let a = t.step(Event::Woke);
    assert_eq!(rig.cycle(&mut t, a), 1000);
    assert_eq!(rig.written.len(), 3);
    rig.writes = 0;
    let a = t.step(Event::Woke);
    assert_eq!(rig.cycle(&mut t, a), 1000);
    assert!(t.is_connected);
    assert!(matches!(t.step(Event::Woke), Action::TakeRecord));
}

#[test]
fn zero_limit_never_gives_up() {
    let mut t = Terminal::new(64, 10, 1000, 0);
    let mut rig = Rig::new(vec![]);
    rig.fail_on_write = Some(1);
    assert_eq!(rig.cycle(&mut t, Action::AwaitConnection), 1000);
    for _ in 0..5 {
        rig.writes = 0;
        let a = t.step(Event::Woke);
        assert!(matches!(a, Action::TakeRecord));
        assert_eq!(rig.cycle(&mut t, a), 1000);
    }
    assert!(t.is_connected);
    assert!(rig.written.is_empty());
}

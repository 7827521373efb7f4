use sni_fragment::forward::{
    expected_payload, send_script, Action, Event, Failure, Forwarder, MAX_TLS_RECORD,
};
use sni_fragment::fragment::FragmentConfig;
use sni_fragment::packet::fingerprint::TlsFingerprint;

/// An action as text.
fn show(action: &Action) -> String {
    match action {
        Action::Read(n) => format!("read {n}"),
        Action::QueryNodelay => "query".to_string(),
        Action::DisableNagle => "disable".to_string(),
        Action::Pause(ms) => format!("pause {ms}"),
        Action::Write(bytes) => format!("write {}", bytes.len()),
        Action::RestoreNagle(nodelay) => format!("restore {nodelay}"),
        Action::Finish => "finish".to_string(),
        Action::Fail(Failure::TimedOut) => "timed out".to_string(),
        Action::Fail(Failure::Io) => "failed".to_string(),
    }
}

#[test]
fn payload_lengths() {
    assert_eq!(expected_payload(&[22, 3, 1, 2, 0]), Some(512));
    assert_eq!(expected_payload(&[23, 3, 1, 2, 0]), None);
    assert_eq!(expected_payload(&[22, 3, 1, 0, 0]), None);
    assert_eq!(MAX_TLS_RECORD, 18432);
    assert_eq!(expected_payload(&[22, 3, 1, 0x48, 0x00]), Some(18432));
    assert_eq!(expected_payload(&[22, 3, 1, 0x48, 0x01]), None);
}

#[test]
fn a_client_hello_is_forwarded_in_pieces() {
    let record = TlsFingerprint::Default.build_client_hello("test.com");
    let cfg = FragmentConfig { sni_chunk: 3, delay_ms: 20 };
    let (mut session, first) = Forwarder::new(cfg);
    assert_eq!(show(&first), "read 5");
    let read = session.next(Event::Read(record[..5].to_vec()));
    assert_eq!(show(&read), format!("read {}", record.len() - 5));
    let query = session.next(Event::Read(record[5..].to_vec()));
    assert_eq!(show(&query), "query");
    let mut action = session.next(Event::Nodelay(false));
    let mut shown = Vec::new();
    let mut sent = Vec::new();
    while !matches!(action, Action::Finish | Action::Fail(_)) {
        shown.push(show(&action));
        if let Action::Write(bytes) = &action {
            sent.extend_from_slice(bytes);
        }
        action = session.next(Event::Done);
    }
    assert_eq!(show(&action), "finish");
    assert_eq!(sent, record);
    let rest = format!("write {}", record.len() - 135);
    assert_eq!(
        shown,
        vec![
            "disable", "write 127", "pause 20", "write 3", "pause 20", "write 3", "pause 20",
            "write 2", "pause 20", &rest, "restore false"
        ]
    );
    assert_eq!(show(&session.next(Event::Done)), "finish");
}

#[test]
fn without_a_delay_there_is_no_pause() {
    let record = TlsFingerprint::Default.build_client_hello("test.com");
    let cfg = FragmentConfig { sni_chunk: 0, delay_ms: 0 };
    let shown: Vec<String> = send_script(&record, &cfg).iter().map(show).collect();
    let rest = format!("write {}", record.len() - 135);
    assert_eq!(shown, vec!["write 127", "write 8", &rest]);
}

#[test]
fn other_records_are_forwarded_as_they_came() {
    let (mut session, _) = Forwarder::new(FragmentConfig::default());
    let hdr = vec![0x17, 3, 3, 0, 5];
    assert_eq!(show(&session.next(Event::Read(hdr.clone()))), "query");
    assert_eq!(show(&session.next(Event::Nodelay(false))), "disable");
    match session.next(Event::Done) {
        Action::Write(bytes) => assert_eq!(bytes, hdr),
        other => panic!("{}", show(&other)),
    }
    assert_eq!(show(&session.next(Event::Done)), "restore false");
    assert_eq!(show(&session.next(Event::Done)), "finish");
}

#[test]
fn failures_end_the_session() {
    let (mut session, _) = Forwarder::new(FragmentConfig::default());
    assert_eq!(show(&session.next(Event::Failed)), "failed");
    assert_eq!(show(&session.next(Event::Done)), "failed");

    let (mut session, _) = Forwarder::new(FragmentConfig::default());
    assert_eq!(show(&session.next(Event::TimedOut)), "timed out");
    assert_eq!(show(&session.next(Event::Done)), "timed out");

    let (mut session, _) = Forwarder::new(FragmentConfig::default());
    assert_eq!(show(&session.next(Event::Read(vec![22]))), "failed");

    let (mut session, _) = Forwarder::new(FragmentConfig::default());
    session.next(Event::Read(vec![22, 3, 1, 0, 9]));
    assert_eq!(show(&session.next(Event::TimedOut)), "timed out");

    let (mut session, _) = Forwarder::new(FragmentConfig::default());
    session.next(Event::Read(vec![22, 3, 1, 0, 9]));
    assert_eq!(show(&session.next(Event::Read(vec![0; 8]))), "failed");
}

#[test]
fn nothing_is_restored_before_nodelay_is_set() {
    let (mut session, _) = Forwarder::new(FragmentConfig::default());
    session.next(Event::Read(vec![23, 3, 1, 0, 9]));
    assert_eq!(show(&session.next(Event::Nodelay(false))), "disable");
    assert_eq!(show(&session.next(Event::Failed)), "failed");
    assert_eq!(show(&session.next(Event::Done)), "failed");
}

#[test]
fn where_nodelay_cannot_be_told_it_is_cleared() {
    for answer in [Event::Failed, Event::TimedOut, Event::Done] {
        let (mut session, _) = Forwarder::new(FragmentConfig::default());
        assert_eq!(show(&session.next(Event::Read(vec![23, 3, 1, 0, 9]))), "query");
        assert_eq!(show(&session.next(answer)), "disable");
        assert_eq!(show(&session.next(Event::Done)), "write 5");
        assert_eq!(show(&session.next(Event::Done)), "restore false");
        assert_eq!(show(&session.next(Event::Done)), "finish");
    }

    let (mut session, _) = Forwarder::new(FragmentConfig::default());
    session.next(Event::Read(vec![23, 3, 1, 0, 9]));
    session.next(Event::Failed);
    assert_eq!(show(&session.next(Event::Done)), "write 5");
    assert_eq!(show(&session.next(Event::Failed)), "restore false");
    assert_eq!(show(&session.next(Event::Done)), "failed");
}

#[test]
fn a_failed_write_restores_nodelay() {
    for nodelay in [false, true] {
        for restored in [Event::Done, Event::Failed] {
            let (mut session, _) = Forwarder::new(FragmentConfig::default());
            session.next(Event::Read(vec![23, 3, 1, 0, 9]));
            session.next(Event::Nodelay(nodelay));
            assert_eq!(show(&session.next(Event::Done)), "write 5");
            let undo = session.next(Event::Failed);
            assert_eq!(show(&undo), format!("restore {nodelay}"));
            assert_eq!(show(&session.next(restored)), "failed");
            assert_eq!(show(&session.next(Event::Done)), "failed");
        }
    }
}

#[test]
fn a_failure_between_the_pieces_restores_nodelay() {
    let record = TlsFingerprint::Default.build_client_hello("test.com");
    let all = send_script(&record, &FragmentConfig { sni_chunk: 3, delay_ms: 7 }).len();
    assert_eq!(all, 9);
    for taken in 0..all {
        let (mut session, _) = Forwarder::new(FragmentConfig { sni_chunk: 3, delay_ms: 7 });
        session.next(Event::Read(record[..5].to_vec()));
        session.next(Event::Read(record[5..].to_vec()));
        session.next(Event::Nodelay(true));
        for _ in 0..taken {
            session.next(Event::Done);
        }
        let action = session.next(Event::Done);
        assert!(matches!(action, Action::Write(_) | Action::Pause(7)));
        assert_eq!(show(&session.next(Event::Failed)), "restore true");
        assert_eq!(show(&session.next(Event::Done)), "failed");
    }
}

#[test]
fn nodelay_stays_set_where_it_was() {
    let (mut session, _) = Forwarder::new(FragmentConfig::default());
    session.next(Event::Read(vec![23, 3, 1, 0, 9]));
    assert_eq!(show(&session.next(Event::Nodelay(true))), "disable");
    assert_eq!(show(&session.next(Event::Done)), "write 5");
    assert_eq!(show(&session.next(Event::Done)), "restore true");
    assert_eq!(show(&session.next(Event::Done)), "finish");
}

#[test]
fn restoring_nodelay_may_fail() {
    let (mut session, _) = Forwarder::new(FragmentConfig::default());
    session.next(Event::Read(vec![23, 3, 1, 0, 9]));
    session.next(Event::Nodelay(false));
    session.next(Event::Done);
    assert_eq!(show(&session.next(Event::Done)), "restore false");
    assert_eq!(show(&session.next(Event::Failed)), "finish");
}

#[test]
fn of_nothing_nothing_is_written() {
    let cfg = FragmentConfig { sni_chunk: 3, delay_ms: 20 };
    assert!(send_script(&[], &cfg).is_empty());
    assert_eq!(send_script(&[1], &cfg).len(), 1);
}

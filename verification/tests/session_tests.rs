use factorio_exporter::client::{
    auth_outcome, complete_exchange, correlate_response, AuthOutcome, ExchangeError,
    ProtocolClient,
};
use factorio_exporter::packet::{
    encode_packet, Packet, TYPE_AUTH, TYPE_AUTH_RESPONSE, TYPE_EXEC_COMMAND,
};
use factorio_exporter::session::{
    choose_password_source, startup_exit_code, Action, Event, Phase, Session, StartupError,
};

#[test]
fn both_password_sources_exit_one() {
    let r = choose_password_source(Some("secret".to_string()), Some("/etc/pw".to_string()));
    let e = r.expect_err("both flags is a startup error");
    assert_eq!(e, StartupError::BothPasswordSources);
    assert_eq!(startup_exit_code(&e), 1);
}

#[test]
fn no_password_source_exit_one() {
    let r = choose_password_source(None, None);
    let e = r.expect_err("neither flag is a startup error");
    assert_eq!(e, StartupError::NoPasswordSource);
    assert_eq!(startup_exit_code(&e), 1);
}

#[test]
fn inline_password_wins_when_alone() {
    match choose_password_source(Some("secret".to_string()), None) {
        Ok(factorio_exporter::session::PasswordSource::Inline(p)) => assert_eq!(p, "secret"),
        other => panic!("expected the inline password, got {:?}", other),
    }
}

#[test]
fn password_file_wins_when_alone() {
    match choose_password_source(None, Some("/etc/pw".to_string())) {
        Ok(factorio_exporter::session::PasswordSource::FromFile(f)) => assert_eq!(f, "/etc/pw"),
        other => panic!("expected the password file, got {:?}", other),
    }
}

#[test]
fn fresh_identifiers_are_distinct() {
    let mut c = ProtocolClient::new();
    let auth = c.auth_request(b"secret").expect("framable");
    let cmd = c.command_request(b"/players o").expect("framable");
    assert_eq!(auth.id, 1);
    assert_eq!(auth.ptype, TYPE_AUTH);
    assert_eq!(auth.body, b"secret".to_vec());
    assert_eq!(cmd.id, 2);
    assert_eq!(cmd.ptype, TYPE_EXEC_COMMAND);
    assert_ne!(auth.id, cmd.id);
}

#[test]
fn password_with_nul_cannot_be_framed() {
    let mut c = ProtocolClient::new();
    assert!(c.auth_request(b"se\0cret").is_none());
    let p = c.auth_request(b"secret").expect("framable");
    assert_eq!(p.id, 1, "a refused request consumes no identifier");
}

#[test]
fn auth_accepted_on_correlated_response() {
    let resp = Packet { id: 1, ptype: TYPE_AUTH_RESPONSE, body: Vec::new() };
    assert_eq!(auth_outcome(1, &resp), AuthOutcome::Accepted);
}

#[test]
fn auth_rejected_on_sentinel_identifier() {
    let resp = Packet { id: u32::MAX, ptype: TYPE_AUTH_RESPONSE, body: Vec::new() };
    assert_eq!(auth_outcome(1, &resp), AuthOutcome::Rejected);
}

#[test]
fn auth_rejected_on_wrong_type() {
    let resp = Packet { id: 1, ptype: 0, body: Vec::new() };
    assert_eq!(auth_outcome(1, &resp), AuthOutcome::Rejected);
}

#[test]
fn correlated_response_yields_body() {
    let resp = Packet { id: 4, ptype: 0, body: b"Online players (0): ".to_vec() };
    assert_eq!(correlate_response(4, resp), Ok(b"Online players (0): ".to_vec()));
}

#[test]
fn identifier_mismatch_is_transport_error() {
    let resp = Packet { id: 5, ptype: 0, body: Vec::new() };
    assert_eq!(correlate_response(4, resp), Err(ExchangeError::Transport));
}

#[test]
fn exchange_completes_on_correlated_payload() {
    let resp = Packet { id: 6, ptype: 0, body: b"Online players (2): a,b".to_vec() };
    let payload = encode_packet(&resp)[4..].to_vec();
    assert_eq!(
        complete_exchange(6, &payload),
        Ok(b"Online players (2): a,b".to_vec())
    );
}

#[test]
fn exchange_mismatch_is_transport_error() {
    let resp = Packet { id: 6, ptype: 0, body: b"x".to_vec() };
    let payload = encode_packet(&resp)[4..].to_vec();
    assert_eq!(complete_exchange(7, &payload), Err(ExchangeError::Transport));
}

#[test]
fn malformed_framing_is_protocol_error() {
    assert_eq!(
        complete_exchange(1, &[1, 0, 0, 0, 0, 0]),
        Err(ExchangeError::Protocol)
    );
    assert_eq!(
        complete_exchange(1, &[1, 0, 0, 0, 0, 0, 0, 0, b'a', 0, 7]),
        Err(ExchangeError::Protocol)
    );
}

#[test]
fn auth_rejection_exits_two_and_gauge_unset() {
    let mut s = Session::new();
    let a = s.step(Event::AuthRejected);
    assert_eq!(a, Action::Exit(2));
    assert_eq!(s.phase, Phase::Finished(2));
    assert_eq!(s.gauge, None);
    let a2 = s.step(Event::Reply(b"Online players (3): x".to_vec()));
    assert_eq!(a2, Action::Idle);
    assert_eq!(s.gauge, None, "a finished session never sets the gauge");
}

#[test]
fn auth_transport_failure_is_fatal() {
    let mut s = Session::new();
    let a = s.step(Event::AuthFailed);
    assert_eq!(a, Action::Exit(1));
    assert_eq!(s.phase, Phase::Finished(1));
}

#[test]
fn stale_value_kept_across_failed_tick() {
    let mut s = Session::new();
    s.step(Event::AuthAccepted);
    let a = s.step(Event::Reply(b"Online players (5): a,b,c,d,e".to_vec()));
    assert_eq!(a, Action::SetGauge(5));
    assert_eq!(s.gauge, Some(5));
    assert_eq!(s.step(Event::TickFailed), Action::Idle);
    assert_eq!(s.gauge, Some(5), "transport failure leaves the gauge");
    assert_eq!(s.step(Event::Reply(b"garbled".to_vec())), Action::Idle);
    assert_eq!(s.gauge, Some(5), "an unparseable reply leaves the gauge");
}

#[test]
fn end_to_end_three_ticks() {
    let mut s = Session::new();
    assert_eq!(s.step(Event::AuthAccepted), Action::Idle);
    assert_eq!(s.phase, Phase::Polling);
    assert_eq!(
        s.step(Event::Reply(b"Online players (3): p1,p2,p3".to_vec())),
        Action::SetGauge(3)
    );
    assert_eq!(s.gauge, Some(3));
    assert_eq!(s.step(Event::TickFailed), Action::Idle);
    assert_eq!(s.gauge, Some(3), "gauge still reads 3 after a timeout");
    assert_eq!(
        s.step(Event::Reply(b"Online players (7): p1,p2,p3,p4,p5,p6,p7".to_vec())),
        Action::SetGauge(7)
    );
    assert_eq!(s.gauge, Some(7));
}

#[test]
fn shutdown_exits_zero() {
    let mut s = Session::new();
    s.step(Event::AuthAccepted);
    s.step(Event::Reply(b"Online players (1): p".to_vec()));
    let a = s.step(Event::ShutdownRequested);
    assert_eq!(a, Action::Exit(0));
    assert_eq!(s.phase, Phase::Finished(0));
    assert_eq!(s.gauge, Some(1), "shutdown does not clear the gauge");
}

#[test]
fn shutdown_before_auth_exits_zero() {
    let mut s = Session::new();
    assert_eq!(s.step(Event::ShutdownRequested), Action::Exit(0));
    assert_eq!(s.phase, Phase::Finished(0));
}

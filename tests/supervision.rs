use bore_gui::{
    ClientConfig, Event, Hub, Role, ServerConfig, Session, SessionConfig, StartError, StopError,
    Supervisor,
};

fn client_config() -> ClientConfig {
    ClientConfig {
        local_host: "localhost".to_string(),
        local_port: 8080,
        to: "example.com".to_string(),
        port: 7000,
        secret: None,
    }
}

fn server_config() -> ServerConfig {
    ServerConfig {
        min_port: 1024,
        max_port: 65535,
        secret: Some("s3".to_string()),
        bind_addr: "0.0.0.0".to_string(),
        bind_tunnels: None,
    }
}

fn kinds(events: &[Event]) -> Vec<String> {
    events.iter().map(|e| e.kind()).collect()
}

#[test]
fn client_args_follow_config() {
    let mut c = client_config();
    assert_eq!(
        c.args(),
        vec!["local", "8080", "--local-host", "localhost", "--to", "example.com", "--port", "7000"]
    );
    c.secret = Some("abc".to_string());
    assert_eq!(c.args().len(), 10);
    assert_eq!(c.args()[8], "--secret");
    assert_eq!(c.args()[9], "abc");
}

#[test]
fn server_args_follow_config() {
    let mut c = server_config();
    assert_eq!(
        c.args(),
        vec![
            "server", "--min-port", "1024", "--max-port", "65535", "--bind-addr", "0.0.0.0",
            "--secret", "s3"
        ]
    );
    c.secret = None;
    c.bind_tunnels = Some("127.0.0.1".to_string());
    assert_eq!(
        c.args(),
        vec![
            "server", "--min-port", "1024", "--max-port", "65535", "--bind-addr", "0.0.0.0",
            "--bind-tunnels", "127.0.0.1"
        ]
    );
}

#[test]
fn event_kinds() {
    let id = "x".to_string();
    assert_eq!(Event::Pong { correlation: None }.kind(), "pong");
    assert_eq!(Event::Exited { role: Role::Server, id: id.clone() }.kind(), "server_exited");
    assert_eq!(Event::Stopped { role: Role::Client, id: id.clone() }.kind(), "client_stopped");
    assert_eq!(
        Event::Log { role: Role::Server, id: id.clone(), line: String::new(), is_error: true }.kind(),
        "server_log"
    );
    assert_eq!(
        Event::PortAssigned { id, port: 1, address: String::new() }.kind(),
        "client_port_assigned"
    );
}

#[test]
fn client_session_event_order() {
    let mut sup = Supervisor::new();
    let obs = sup.connect().unwrap();
    let session = sup.start(SessionConfig::Client(client_config()), Some(4242)).unwrap();
    assert_eq!(session.pid, 4242);
    assert_eq!(session.role, Role::Client);
    assert_eq!(session.relay, "example.com");
    assert_eq!(sup.get(&session.id), Some(4242));
    sup.output(&session, "listening at example.com:41230".to_string(), false);
    assert!(sup.exited(&session.id));
    assert_eq!(sup.get(&session.id), None);
    let events = sup.drain(&obs).unwrap();
    assert_eq!(
        kinds(&events),
        vec!["client_started", "client_port_assigned", "client_log", "client_exited"]
    );
    match &events[1] {
        Event::PortAssigned { id, port, address } => {
            assert_eq!(id, &session.id);
            assert_eq!(*port, 41230);
            assert_eq!(address, "example.com:41230");
        }
        other => panic!("unexpected {:?}", other),
    }
    match &events[2] {
        Event::Log { line, is_error, .. } => {
            assert_eq!(line, "listening at example.com:41230");
            assert!(!is_error);
        }
        other => panic!("unexpected {:?}", other),
    }
    match &events[0] {
        Event::Started { id, pid, config: SessionConfig::Client(c), .. } => {
            assert_eq!(id, &session.id);
            assert_eq!(*pid, 4242);
            assert_eq!(c.local_port, 8080);
        }
        other => panic!("unexpected {:?}", other),
    }
}

#[test]
fn stop_after_natural_exit_is_not_found() {
    let mut sup = Supervisor::new();
    let obs = sup.connect().unwrap();
    let session = sup.start(SessionConfig::Client(client_config()), Some(7)).unwrap();
    assert!(sup.exited(&session.id));
    assert_eq!(sup.stop(&session.id), Err(StopError::NotFound));
    let events = sup.drain(&obs).unwrap();
    assert_eq!(kinds(&events), vec!["client_started", "client_exited"]);
}

#[test]
fn stop_twice_succeeds_once() {
    let mut sup = Supervisor::new();
    let obs = sup.connect().unwrap();
    let session = sup.start(SessionConfig::Server(server_config()), Some(99)).unwrap();
    assert_eq!(sup.stop(&session.id), Ok(99));
    assert_eq!(sup.stop(&session.id), Err(StopError::NotFound));
    assert!(!sup.exited(&session.id));
    let events = sup.drain(&obs).unwrap();
    assert_eq!(kinds(&events), vec!["server_started", "server_stopped"]);
}

#[test]
fn stop_unknown_id_is_not_found() {
    let mut sup = Supervisor::new();
    assert_eq!(sup.stop(&"no-such-session".to_string()), Err(StopError::NotFound));
}

#[test]
fn failed_spawn_leaves_no_record() {
    let mut sup = Supervisor::new();
    let obs = sup.connect().unwrap();
    let r = sup.start(SessionConfig::Client(client_config()), None);
    assert!(matches!(r, Err(StartError::SpawnFailed)));
    assert_eq!(sup.drain(&obs).unwrap().len(), 0);
}

#[test]
fn session_ids_are_fresh() {
    let mut sup = Supervisor::new();
    let a = sup.start(SessionConfig::Client(client_config()), Some(1)).unwrap();
    let b = sup.start(SessionConfig::Client(client_config()), Some(2)).unwrap();
    assert_ne!(a.id, b.id);
    assert_eq!(a.id.len(), 36);
    assert!(sup.exited(&a.id));
    let again = sup.register_session(a.id.clone(), SessionConfig::Client(client_config()), Some(3));
    assert!(matches!(again, Err(StartError::IdInUse)));
    assert_eq!(sup.get(&a.id), None);
}

#[test]
fn error_lines_are_logged_not_classified() {
    let mut sup = Supervisor::new();
    let obs = sup.connect().unwrap();
    let session = Session {
        id: "s".to_string(),
        pid: 1,
        role: Role::Client,
        relay: "r".to_string(),
    };
    sup.output(&session, "listening at r:1".to_string(), true);
    sup.output(&session, "starting up".to_string(), false);
    let events = sup.drain(&obs).unwrap();
    assert_eq!(kinds(&events), vec!["client_log", "client_log"]);
    match &events[0] {
        Event::Log { is_error, .. } => assert!(*is_error),
        other => panic!("unexpected {:?}", other),
    }
}

#[test]
fn server_lines_are_only_logged() {
    let mut sup = Supervisor::new();
    let obs = sup.connect().unwrap();
    let session = sup.start(SessionConfig::Server(server_config()), Some(5)).unwrap();
    assert_eq!(session.relay, "");
    sup.output(&session, "listening at 0.0.0.0:7835".to_string(), false);
    let events = sup.drain(&obs).unwrap();
    assert_eq!(kinds(&events), vec!["server_started", "server_log"]);
}

#[test]
fn every_observer_gets_each_event_once_in_order() {
    let mut hub = Hub::new();
    let a = "a".to_string();
    let b = "b".to_string();
    assert!(hub.register(a.clone()));
    assert!(hub.register(b.clone()));
    assert!(!hub.register(a.clone()));
    hub.broadcast(&Event::Exited { role: Role::Client, id: "1".to_string() });
    hub.broadcast(&Event::Stopped { role: Role::Server, id: "2".to_string() });
    for who in [&a, &b] {
        let got = hub.drain(who).unwrap();
        assert_eq!(kinds(&got), vec!["client_exited", "server_stopped"]);
    }
    assert_eq!(hub.drain(&a).unwrap().len(), 0);
    let late = "late".to_string();
    assert!(hub.register(late.clone()));
    assert_eq!(hub.drain(&late).unwrap().len(), 0);
}

#[test]
fn unregister_twice_is_a_no_op() {
    let mut hub = Hub::new();
    let a = "a".to_string();
    assert!(hub.register(a.clone()));
    assert!(hub.unregister(&a));
    assert!(!hub.unregister(&a));
    assert_eq!(hub.len(), 0);
    hub.broadcast(&Event::Exited { role: Role::Client, id: "1".to_string() });
    assert!(hub.drain(&a).is_none());
}

#[test]
fn ping_gets_pong_for_sender_only() {
    let mut hub = Hub::new();
    let a = "a".to_string();
    let b = "b".to_string();
    hub.register(a.clone());
    hub.register(b.clone());
    assert!(hub.receive(&a, &"ping".to_string(), Some("c1".to_string())));
    assert!(!hub.receive(&a, &"hello".to_string(), None));
    let got = hub.drain(&a).unwrap();
    assert_eq!(got.len(), 1);
    match &got[0] {
        Event::Pong { correlation } => assert_eq!(correlation.as_deref(), Some("c1")),
        other => panic!("unexpected {:?}", other),
    }
    assert_eq!(hub.drain(&b).unwrap().len(), 0);
}

#[test]
fn observers_connect_with_distinct_ids() {
    let mut sup = Supervisor::new();
    let a = sup.connect().unwrap();
    let b = sup.connect().unwrap();
    assert_ne!(a, b);
    assert_eq!(a.len(), 36);
    assert!(sup.disconnect(&a));
    assert!(!sup.disconnect(&a));
    assert!(sup.drain(&a).is_none());
    assert!(sup.receive(&b, &"ping".to_string(), None));
}

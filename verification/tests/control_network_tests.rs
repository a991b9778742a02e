use upsurge::upsurge::connexion_info::ConnexionInfo;
use upsurge::upsurge::control_network::{ControlNetwork, NetworkError, SessionUpdate};

/// A stand-in for a remote session: whether it answers, and whether it closes.
#[derive(Debug, Clone, PartialEq)]
struct FakeSession {
    name: String,
    alive: bool,
    closes: bool,
}

fn fake(name: &str, alive: bool, closes: bool) -> FakeSession {
    FakeSession { name: name.to_string(), alive, closes }
}

fn info(user: &str) -> ConnexionInfo {
    ConnexionInfo::new(user.to_string(), "127.0.0.1".to_string(), 22)
}

fn check(s: &FakeSession) -> bool {
    s.alive
}

fn close(s: FakeSession) -> bool {
    s.closes
}

#[test]
fn test_add_machine() {
    let mut network: ControlNetwork<FakeSession> = ControlNetwork::default();
    assert_eq!(network.get_connexions_len(), 0);
    let conn_info = ConnexionInfo::new("user1".to_string(), "127.0.0.1".to_string(), 22);
    let conn_info2 = ConnexionInfo::new("user2".to_string(), "127.0.0.;".to_string(), 22);
    network.add_machine(conn_info);
    network.add_machine(conn_info2);
    assert_eq!(network.get_connexions().len(), 2);
    assert_eq!(network.get_connexions_len(), 2);
    assert!(network.get_connexions()[0].0.is_none());
    assert_eq!(network.get_connexions()[1].1.describe(), "ConnexionInfo { user: \"user2\", ip: \"127.0.0.;\", port: 22 }");
}

#[test]
fn test_remove_machine() {
    let mut network: ControlNetwork<FakeSession> = ControlNetwork::new(Vec::new());
    network.add_machine(info("u872994712"));
    let res = network.remove_machine(0, &check, &close);
    assert_eq!(res, Ok(()));
    assert_eq!(network.get_connexions().len(), 0);
}

#[test]
fn remove_machine_out_of_range() {
    let mut network: ControlNetwork<FakeSession> = ControlNetwork::new(Vec::new());
    network.add_machine(info("a"));
    let res = network.remove_machine(1, &check, &close);
    assert_eq!(res, Err(NetworkError::IdOutOfRange));
    assert_eq!(res.unwrap_err().message(), "id isn't in the vector of connexions");
    assert_eq!(network.get_connexions_len(), 1);
}

#[test]
fn remove_machine_shifts_ids() {
    let mut network: ControlNetwork<FakeSession> = ControlNetwork::new(vec![
        (None, info("a")),
        (Some(fake("b", false, true)), info("b")),
        (None, info("c")),
    ]);
    assert_eq!(network.remove_machine(1, &check, &close), Ok(()));
    assert_eq!(network.get_connexions_len(), 2);
    assert_eq!(network.get_connexions()[1].1.describe(), info("c").describe());
}

#[test]
fn remove_machine_closes_a_live_session_first() {
    let mut network = ControlNetwork::new(vec![(Some(fake("s", true, true)), info("a"))]);
    assert_eq!(network.remove_machine(0, &check, &close), Ok(()));
    assert_eq!(network.get_connexions_len(), 0);

    let mut network = ControlNetwork::new(vec![(Some(fake("s", true, false)), info("a"))]);
    assert_eq!(network.remove_machine(0, &check, &close), Err(NetworkError::SessionNotConnected));
    assert_eq!(network.get_connexions_len(), 1);
    assert!(network.get_connexions()[0].0.is_none());
}

#[test]
fn test_update_session() {
    let mut network: ControlNetwork<FakeSession> = ControlNetwork::new(Vec::new());
    network.add_machine(info("u872994712"));
    let connect = |c: &ConnexionInfo| Some(fake(&c.ssh_format(), true, true));
    let r = network.update_session(0, &check, &connect);
    assert_eq!(r, SessionUpdate::Connected);
    assert_eq!(network.get_connexions()[0].0.as_ref().unwrap().name, "ssh://u872994712@127.0.0.1:22");

    let r = network.update_session(0, &check, &connect);
    assert_eq!(r, SessionUpdate::AlreadyConnected);
}

#[test]
fn update_session_replaces_a_dead_session() {
    let mut network = ControlNetwork::new(vec![(Some(fake("old", false, true)), info("a"))]);
    let connect = |_c: &ConnexionInfo| Some(fake("new", true, true));
    assert_eq!(network.update_session(0, &check, &connect), SessionUpdate::Connected);
    assert_eq!(network.get_connexions()[0].0.as_ref().unwrap().name, "new");

    let mut network = ControlNetwork::new(vec![(Some(fake("old", false, true)), info("a"))]);
    let refuse = |_c: &ConnexionInfo| None;
    assert_eq!(network.update_session(0, &check, &refuse), SessionUpdate::ConnectionFailed);
    assert_eq!(network.get_connexions()[0].0.as_ref().unwrap().name, "old");
}

#[test]
fn test_close_session() {
    let mut network = ControlNetwork::new(vec![(Some(fake("s", true, true)), info("a"))]);
    assert_eq!(network.close_session(0, &close), Ok(()));
    assert!(network.get_connexions()[0].0.is_none());
    let again = network.close_session(0, &close);
    assert_eq!(again, Err(NetworkError::NoSession));
    assert_eq!(again.unwrap_err().message(), "No Session");

    let mut network = ControlNetwork::new(vec![(Some(fake("s", true, false)), info("a"))]);
    assert_eq!(network.close_session(0, &close), Err(NetworkError::SessionNotConnected));
    assert!(network.get_connexions()[0].0.is_none());
}

#[test]
fn test_close_all_session() {
    let mut network = ControlNetwork::new(vec![
        (Some(fake("s0", true, true)), info("a")),
        (Some(fake("s1", true, true)), info("b")),
    ]);
    assert_eq!(network.close_all_session(&close), Ok(()));
    assert!(network.get_connexions()[0].0.is_none());
    assert!(network.get_connexions()[1].0.is_none());
}

#[test]
fn close_all_session_stops_at_the_first_failure() {
    let mut network = ControlNetwork::new(vec![
        (Some(fake("s0", true, true)), info("a")),
        (None, info("b")),
        (Some(fake("s2", true, true)), info("c")),
    ]);
    let r = network.close_all_session(&close);
    assert_eq!(r, Err(NetworkError::CannotCloseAll));
    assert_eq!(r.unwrap_err().message(), "Can't close all sessions");
    assert!(network.get_connexions()[0].0.is_none());
    assert!(network.get_connexions()[2].0.is_some());
}

#[test]
fn test_exec() {
    let network = ControlNetwork::new(vec![
        (Some(fake("s0", true, true)), info("a")),
        (None, info("b")),
    ]);
    let request = |id: usize, s: &FakeSession, c: &str| if c == "fail" { None } else { Some(format!("{} ({}) ran {}", s.name, id, c)) };
    assert_eq!(network.exec("echo hello", 0, &request), Ok("s0 (0) ran echo hello".to_string()));
    assert_eq!(network.exec("fail", 0, &request), Err(NetworkError::ExecFailed));
    let none = network.exec("echo", 1, &request);
    assert_eq!(none, Err(NetworkError::NoSessionInExec));
    assert_eq!(none.unwrap_err().message(), "No Session in exec function");
    assert_eq!(
        NetworkError::ExecFailed.message(),
        "Error while executing the command in exec function of ControlNetwork"
    );
}

#[test]
fn is_connected_reports_each_case() {
    let network = ControlNetwork::new(vec![
        (Some(fake("s0", true, true)), info("a")),
        (Some(fake("s1", false, true)), info("b")),
        (None, info("c")),
    ]);
    assert_eq!(network.is_connected(0, &check), Ok(()));
    assert_eq!(network.is_connected(1, &check), Err(NetworkError::SessionNotConnected));
    assert_eq!(network.is_connected(2, &check), Err(NetworkError::NoSession));
}

#[test]
fn network_state_lines() {
    let network = ControlNetwork::new(vec![
        (Some(fake("s0", true, true)), info("a")),
        (Some(fake("s1", false, true)), info("b")),
        (None, info("c")),
    ]);
    let states = network.get_network_state(&check).unwrap();
    assert_eq!(
        states,
        vec![
            "- a@127.0.0.1:22 > Alive".to_string(),
            "- b@127.0.0.1:22 > Dead".to_string(),
            "- c@127.0.0.1:22 > Dead".to_string(),
        ]
    );
}

#[test]
fn add_then_remove_gives_back_the_network() {
    let mut network: ControlNetwork<FakeSession> = ControlNetwork::new(vec![(None, info("a"))]);
    let before = network.get_network_state(&check).unwrap();
    network.add_machine(info("b"));
    assert_eq!(network.remove_machine(1, &check, &close), Ok(()));
    assert_eq!(network.get_network_state(&check).unwrap(), before);
}

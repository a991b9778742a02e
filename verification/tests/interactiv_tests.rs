use std::cell::RefCell;
use upsurge::groups::Groups;
use upsurge::interactiv::{parse_id_list, Interactiv, ShellCommand, ShellError};
use upsurge::upsurge::connexion_info::ConnexionInfo;
use upsurge::upsurge::control_network::{ControlNetwork, NetworkError, SessionUpdate};

#[derive(Debug, Clone, PartialEq)]
struct FakeSession {
    alive: bool,
}

fn check(s: &FakeSession) -> bool {
    s.alive
}

fn close(_s: FakeSession) -> bool {
    true
}

fn words(line: &str) -> Vec<String> {
    Interactiv::split_line(line)
}

#[test]
fn commands_by_first_word() {
    let cases = [
        ("/help", ShellCommand::Help),
        ("/network", ShellCommand::Network),
        ("/exit", ShellCommand::Exit),
        ("/add u h 22", ShellCommand::Add),
        ("/remove 0", ShellCommand::Remove),
        ("/connect 0", ShellCommand::Connect),
        ("/disconnect 0", ShellCommand::Disconnect),
        ("/exec 0 ls", ShellCommand::Exec),
        ("/create_group g1 0 1", ShellCommand::CreateGroup),
        ("/remove_group g1", ShellCommand::RemoveGroup),
        ("help", ShellCommand::Unknown),
        ("/HELP", ShellCommand::Unknown),
        ("/helpme", ShellCommand::Unknown),
    ];
    for (line, expected) in cases {
        assert_eq!(Interactiv::command(&words(line)), expected, "line {:?}", line);
    }
}

#[test]
fn add_machine_from_the_shell() {
    let mut network: ControlNetwork<FakeSession> = ControlNetwork::new(Vec::new());
    assert_eq!(Interactiv::add_machine(&mut network, words("/add user 127.0.0.1 22")), Ok(()));
    assert_eq!(network.get_connexions_len(), 1);
    assert_eq!(network.get_connexions()[0].1.ssh_format(), "ssh://user@127.0.0.1:22");
    let bad = Interactiv::add_machine(&mut network, words("/add user 127.0.0.1 port"));
    assert_eq!(bad, Err(ShellError::PortNotValid));
    assert_eq!(bad.unwrap_err().message(), "Port not valid\n");
    assert_eq!(network.get_connexions_len(), 1);
    assert_eq!(Interactiv::add_machine(&mut network, words("/add u h -5 extra")), Ok(()));
    assert_eq!(network.get_connexions()[1].1.ssh_format(), "ssh://u@h:-5");
}

#[test]
fn remove_from_the_shell() {
    let mut network: ControlNetwork<FakeSession> = ControlNetwork::new(Vec::new());
    network.add_machine(ConnexionInfo::new("u".to_string(), "h".to_string(), 1));
    let bad = Interactiv::remove_machine(&mut network, words("/remove x"), &check, &close);
    assert_eq!(bad, Err(ShellError::IdNotValid));
    assert_eq!(bad.unwrap_err().message(), "Id not valid\n");
    let out = Interactiv::remove_machine(&mut network, words("/remove 3"), &check, &close);
    assert_eq!(out, Err(ShellError::Network(NetworkError::IdOutOfRange)));
    assert_eq!(out.unwrap_err().message(), "id isn't in the vector of connexions");
    assert_eq!(Interactiv::remove_machine(&mut network, words("/remove 0"), &check, &close), Ok(()));
    assert_eq!(network.get_connexions_len(), 0);
}

#[test]
fn connect_and_disconnect_from_the_shell() {
    let mut network: ControlNetwork<FakeSession> = ControlNetwork::new(Vec::new());
    network.add_machine(ConnexionInfo::new("u".to_string(), "h".to_string(), 1));
    let connect = |_c: &ConnexionInfo| Some(FakeSession { alive: true });
    assert_eq!(Interactiv::connect_machine(&mut network, words("/connect 0"), &check, &connect), Ok(SessionUpdate::Connected));
    assert_eq!(Interactiv::connect_machine(&mut network, words("/connect 0"), &check, &connect), Ok(SessionUpdate::AlreadyConnected));
    assert_eq!(Interactiv::connect_machine(&mut network, words("/connect zero"), &check, &connect), Err(ShellError::IdNotValid));
    assert_eq!(Interactiv::disconnect_machine(&mut network, words("/disconnect 0"), &close), Ok(()));
    let again = Interactiv::disconnect_machine(&mut network, words("/disconnect 0"), &close);
    assert_eq!(again, Err(ShellError::Network(NetworkError::NoSession)));
    assert_eq!(again.unwrap_err().message(), "No Session");
}

#[test]
fn exec_from_the_shell() {
    let mut network: ControlNetwork<FakeSession> = ControlNetwork::new(Vec::new());
    network.add_machine(ConnexionInfo::new("u".to_string(), "h".to_string(), 1));
    network.add_machine(ConnexionInfo::new("v".to_string(), "h".to_string(), 1));
    let connect = |_c: &ConnexionInfo| Some(FakeSession { alive: true });
    network.update_session(0, &check, &connect);
    let groups = Groups::new();
    let request = |_id: usize, _s: &FakeSession, c: &str| if c == "echo hello world" { Some("hello world\n".to_string()) } else { None };
    assert_eq!(Interactiv::exec_command(&network, &groups, words("/exec 0 echo  hello world"), &request), Ok(()));
    let failed = Interactiv::exec_command(&network, &groups, words("/exec 0 false"), &request);
    assert_eq!(failed, Err(ShellError::ExecFailed));
    assert_eq!(failed.unwrap_err().message(), "Error while executing command\n");
    assert_eq!(Interactiv::exec_command(&network, &groups, words("/exec 1 echo hello world"), &request), Err(ShellError::ExecFailed));
    assert_eq!(Interactiv::exec_command(&network, &groups, words("/exec one ls"), &request), Err(ShellError::IdNotValid));
}

#[test]
fn exec_on_lists_and_groups() {
    let mut network: ControlNetwork<FakeSession> = ControlNetwork::new(Vec::new());
    for user in ["a", "b", "c"] {
        network.add_machine(ConnexionInfo::new(user.to_string(), "h".to_string(), 1));
    }
    let connect = |_c: &ConnexionInfo| Some(FakeSession { alive: true });
    network.update_session(0, &check, &connect);
    network.update_session(2, &check, &connect);
    let ran: RefCell<Vec<(usize, String)>> = RefCell::new(Vec::new());
    let request = |id: usize, _s: &FakeSession, c: &str| {
        ran.borrow_mut().push((id, c.to_string()));
        Some(String::new())
    };
    let mut groups = Groups::new();
    assert_eq!(Interactiv::exec_command(&network, &groups, words("/exec [0,2] echo hello"), &request), Ok(()));
    assert_eq!(*ran.borrow(), vec![(0, "echo hello".to_string()), (2, "echo hello".to_string())]);
    assert_eq!(Interactiv::exec_command(&network, &groups, words("/exec [0,1,2] ls"), &request), Err(ShellError::ExecFailed));
    assert_eq!(ran.borrow().len(), 4);
    assert_eq!(
        Interactiv::exec_command(&network, &groups, words("/exec [0,7] ls"), &request),
        Err(ShellError::Network(NetworkError::IdOutOfRange))
    );
    assert_eq!(ran.borrow().len(), 4);
    assert_eq!(Interactiv::exec_command(&network, &groups, words("/exec [0,x] ls"), &request), Err(ShellError::IdNotValid));
    assert_eq!(Interactiv::exec_command(&network, &groups, words("/exec [] ls"), &request), Err(ShellError::IdNotValid));
    let missing = Interactiv::exec_command(&network, &groups, words("/exec g MyGroup ls"), &request);
    assert_eq!(missing, Err(ShellError::GroupNotFound));
    assert_eq!(missing.unwrap_err().message(), "Group not found\n");
    assert_eq!(Interactiv::create_group(&mut groups, words("/create_group MyGroup 2 0")), Ok(()));
    assert_eq!(Interactiv::exec_command(&network, &groups, words("/exec g MyGroup uname -a"), &request), Ok(()));
    assert_eq!(ran.borrow()[4..].to_vec(), vec![(2, "uname -a".to_string()), (0, "uname -a".to_string())]);
    assert_eq!(Interactiv::exec_command(&network, &groups, words("/exec g"), &request), Err(ShellError::GroupNotFound));
    assert_eq!(Interactiv::remove_group(&mut groups, words("/remove_group MyGroup")), Ok(()));
    assert_eq!(
        Interactiv::exec_command(&network, &groups, words("/exec g MyGroup uname -a"), &request),
        Err(ShellError::GroupNotFound)
    );
    assert_eq!(ran.borrow().len(), 6);
}

#[test]
fn groups_from_the_shell() {
    let mut groups = Groups::new();
    assert_eq!(Interactiv::create_group(&mut groups, words("/create_group web 0 1")), Ok(()));
    assert_eq!(groups.get("web"), Some(&vec![0, 1]));
    assert_eq!(Interactiv::create_group(&mut groups, words("/create_group web 3")), Ok(()));
    assert_eq!(groups.get("web"), Some(&vec![3]));
    assert_eq!(Interactiv::create_group(&mut groups, words("/create_group db 1 x")), Err(ShellError::IdNotValid));
    assert_eq!(groups.get("db"), None);
    assert_eq!(Interactiv::create_group(&mut groups, words("/create_group empty")), Ok(()));
    assert_eq!(groups.get("empty"), Some(&Vec::new()));
    assert_eq!(Interactiv::remove_group(&mut groups, words("/remove_group web")), Ok(()));
    assert_eq!(groups.get("web"), None);
    assert_eq!(Interactiv::remove_group(&mut groups, words("/remove_group web")), Err(ShellError::GroupNotFound));
    assert_eq!(groups.get("empty"), Some(&Vec::new()));
}

#[test]
fn id_lists() {
    assert_eq!(parse_id_list("[0,1,2]"), Some(Some(vec![0, 1, 2])));
    assert_eq!(parse_id_list("[5]"), Some(Some(vec![5])));
    assert_eq!(parse_id_list("[1,,2]"), Some(None));
    assert_eq!(parse_id_list("[]"), Some(None));
    assert_eq!(parse_id_list("0"), None);
    assert_eq!(parse_id_list("[0"), None);
}

#[test]
fn show_network_lines() {
    let mut network: ControlNetwork<FakeSession> = ControlNetwork::new(Vec::new());
    network.add_machine(ConnexionInfo::new("u".to_string(), "h".to_string(), 1));
    network.add_machine(ConnexionInfo::new("v".to_string(), "w".to_string(), 2));
    let connect = |_c: &ConnexionInfo| Some(FakeSession { alive: true });
    network.update_session(1, &check, &connect);
    let lines = Interactiv::show_network(&network, words("/network"), &check);
    assert_eq!(
        lines,
        vec![
            "id: 0, - u@h:1 > Dead".to_string(),
            "id: 1, - v@w:2 > Alive".to_string(),
        ]
    );
}

use upsurge::test::{connexion_record, load_inputs};

#[test]
fn records_of_user_ip_port() {
    let c = connexion_record("u872994712 185.224.138.127 65002");
    assert_eq!(c.ssh_format(), "ssh://u872994712@185.224.138.127:65002");
    let c = connexion_record("  a\tb  -1 trailing words");
    assert_eq!(c.ssh_format(), "ssh://a@b:-1");
}

#[test]
fn loads_connexions_and_commands() {
    let lines = vec!["u1 10.0.0.1 22".to_string(), "u2 10.0.0.2 2222".to_string()];
    let commands = vec!["ls".to_string(), "echo hello".to_string()];
    let (connexions, cmds) = load_inputs(&lines, commands.clone());
    assert_eq!(connexions.len(), 2);
    assert_eq!(connexions[1].ssh_format(), "ssh://u2@10.0.0.2:2222");
    assert_eq!(cmds, commands);
}

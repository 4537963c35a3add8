use testnet::network::exit_text;
use testnet::network::judge_nodes;
use testnet::network::judge_switch;
use testnet::network::process_name;
use testnet::network::ExitOutcome;
use testnet::network::Network;
use testnet::network::NetworkError;

#[test]
fn all_nodes_exiting_zero_succeed() {
    assert_eq!(judge_nodes(&vec![ExitOutcome::Exited(0); 3]), Ok(()));
    assert_eq!(judge_nodes(&vec![]), Ok(()));
}

#[test]
fn failed_node_is_reported() {
    let r = judge_nodes(&vec![
        ExitOutcome::Exited(0),
        ExitOutcome::Exited(101),
        ExitOutcome::Signaled(9),
        ExitOutcome::Other,
        ExitOutcome::Exited(-1),
    ]);
    assert_eq!(
        r,
        Err("some nodes failed:\n- node 0 exited with code 0\n- node 1 exited with code 101\n\
             - node 2 exited with signal SIGKILL\n- node 3 exited with unknown\n\
             - node 4 exited with code -1\n"
            .to_string())
    );
}

#[test]
fn switch_exit_decides_the_network() {
    assert_eq!(judge_switch(&ExitOutcome::Exited(0)), Ok(()));
    assert_eq!(judge_switch(&ExitOutcome::Exited(1)), Err(NetworkError::SomeNodesFailed));
    assert_eq!(judge_switch(&ExitOutcome::Signaled(6)), Err(NetworkError::SomeNodesFailed));
}

#[test]
fn user_namespace_files() {
    let n = Network::new(4242);
    assert_eq!(n.switch_pid(), 4242);
    assert_eq!(n.uid_map_path(), "/proc/4242/uid_map");
    assert_eq!(n.gid_map_path(), "/proc/4242/gid_map");
    assert_eq!(n.setgroups_path(), "/proc/4242/setgroups");
    assert_eq!(Network::id_map(1000), "0 1000 1");
}

#[test]
fn process_names() {
    assert_eq!(process_name("switch"), "testnet/switch");
    assert_eq!(process_name("n0"), "testnet/n0");
}

#[test]
fn signals_are_named() {
    assert_eq!(exit_text(&ExitOutcome::Signaled(6)), "signal SIGABRT");
    assert_eq!(exit_text(&ExitOutcome::Signaled(9)), "signal SIGKILL");
    assert_eq!(exit_text(&ExitOutcome::Signaled(1000)), "signal 1000");
    assert_eq!(exit_text(&ExitOutcome::Exited(3)), "code 3");
    assert_eq!(exit_text(&ExitOutcome::Other), "unknown");
}

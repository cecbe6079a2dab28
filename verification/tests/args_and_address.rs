use dakia::address::{Address, AddressKind};
use dakia::args::{process_args, ArgAction, DakiaArgs};
use dakia::errors::ConfigError;

#[test]
fn plain_invocation_proceeds_to_serving() {
    let args = DakiaArgs::default();
    assert_eq!(process_args(&args), ArgAction::Proceed);
}

#[test]
fn each_one_shot_switch_exits() {
    for picked in 0..4 {
        let args = DakiaArgs {
            version: picked == 0,
            reload: picked == 1,
            debug: picked == 2,
            test: picked == 3,
        };
        assert_eq!(process_args(&args), ArgAction::Exit);
    }
}

#[test]
fn tcp_address_requires_a_host() {
    let a = Address::tcp(String::from("gateway.example"), 443).unwrap();
    assert_eq!(a.host_or_path().as_str(), "gateway.example");
    assert_eq!(a.port(), Some(443));
    assert_eq!(a.kind(), AddressKind::Tcp);
    assert_eq!(Address::tcp(String::new(), 443).unwrap_err(), ConfigError::InvalidAddress);
}

#[test]
fn path_socket_has_no_port() {
    let a = Address::unix_like(String::from("/run/gw.sock")).unwrap();
    assert_eq!(a.port(), None);
    assert_eq!(a.kind(), AddressKind::UnixLike);
    assert_eq!(Address::unix_like(String::new()).unwrap_err(), ConfigError::InvalidAddress);
}

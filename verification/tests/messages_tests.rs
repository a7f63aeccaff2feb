use tienlen::behavior::update_table;
use tienlen::components::server_hand::ServerHand;
use tienlen::components::table::Table;
use tienlen::env::{Env, Environment};
use tienlen::messages::error::{ErrorCode, GameError};

#[test]
fn error_codes_round_trip() {
    for e in [
        GameError::InvalidCards,
        GameError::WrongCombination,
        GameError::WrongTurn,
    ] {
        let code = ErrorCode::from(e);
        assert_eq!(GameError::from(code), e);
    }
}

#[test]
fn default_error_code_is_invalid_cards() {
    assert_eq!(GameError::from(ErrorCode::default()), GameError::InvalidCards);
}

#[test]
fn environment_names() {
    assert_eq!(Environment::from("PROD"), Environment::Prod);
    assert_eq!(Environment::from("DEV"), Environment::Dev);
    assert_eq!(Environment::from("prod"), Environment::Dev);
    assert_eq!(Environment::from("PRODUCTION"), Environment::Dev);
    assert_eq!(Environment::from(""), Environment::Dev);
}

#[test]
fn default_env_is_local() {
    let e = Env::default();
    assert_eq!(e.auth_user_name, "charlie".to_string());
    assert_eq!(e.auth_pass, "12345".to_string());
    assert_eq!(e.webrtc_address, "127.0.0.1:14192".to_string());
    assert_eq!(e.signaling_address, "127.0.0.1:14191".to_string());
    assert_eq!(e.server_public_address, "http://127.0.0.1:14192".to_string());
    assert_eq!(e.server_init_address, "http://127.0.0.1:14191".to_string());
}

#[test]
fn table_holds_the_last_cards() {
    let mut t = Table::default();
    assert_eq!(t.cards, String::new());
    update_table("3C,3S", &mut t);
    assert_eq!(t.cards, "3C,3S".to_string());
    let t2 = Table::new("9H".to_string());
    assert_eq!(t2.cards, "9H".to_string());
    let h = ServerHand::new("4D,5D".to_string());
    assert_eq!(h.cards, "4D,5D".to_string());
}

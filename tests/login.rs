use kanidm_spn::login::{index_choice, pick_for, totp_choice, ChoiceError, CommonOpt, LoginOpt, Pick};

fn opts(username: Option<&str>, debug: bool) -> LoginOpt {
    LoginOpt {
        copt: CommonOpt {
            debug,
            addr: None,
            username: username.map(|u| u.to_string()),
            ca_path: None,
        },
    }
}

#[test]
fn login_options() {
    assert!(opts(None, true).debug());
    assert!(!opts(None, false).debug());
    assert_eq!(opts(None, false).username(), "anonymous");
    assert_eq!(opts(Some("admin"), false).username(), "admin");
}

#[test]
fn typed_index_choice() {
    assert_eq!(index_choice(" 1 \n", 3), Ok(1));
    assert_eq!(index_choice("3\n", 3), Err(ChoiceError::OutOfRange));
    assert_eq!(index_choice("two", 3), Err(ChoiceError::InvalidNumber));
    assert_eq!(index_choice("300", 3), Err(ChoiceError::InvalidNumber));
}

#[test]
fn typed_totp() {
    assert_eq!(totp_choice("123456\n"), Some(123456));
    assert_eq!(totp_choice("12a"), None);
}

#[test]
fn how_to_pick() {
    assert_eq!(pick_for(0), Pick::NothingOffered);
    assert_eq!(pick_for(1), Pick::Only);
    assert_eq!(pick_for(4), Pick::Ask);
}

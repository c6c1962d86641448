use pin_auth::input::{
    check_new_pin, pin_shape_valid, prepare_candidate, split_pin_pair, validate_username,
    PinLengths, ProvisionError,
};
use pin_auth::store::{fail_path, secret_path, secure_resolve_pin_dir, DirError, DirInfo};

#[test]
fn usernames() {
    assert!(validate_username("alice"));
    assert!(validate_username("_svc-1"));
    assert!(validate_username("a2"));
    assert!(validate_username(&"a".repeat(32)));
    assert!(!validate_username(""));
    assert!(!validate_username(&"a".repeat(33)));
    assert!(!validate_username("a/b"));
    assert!(!validate_username("-alice"));
    assert!(!validate_username("12345"));
    assert!(!validate_username("al ice"));
    assert!(!validate_username("jörg"));
}

#[test]
fn candidate_preparation() {
    let l = PinLengths::standard();
    let mut input = String::from("2468\n");
    assert_eq!(prepare_candidate(&mut input, l), Some(String::from("2468")));
    assert!(input.is_empty());
    let mut input = String::from("123\n");
    assert_eq!(prepare_candidate(&mut input, l), None);
    assert!(input.is_empty());
    let mut input = String::from("1234567");
    assert_eq!(prepare_candidate(&mut input, l), None);
    let mut input = String::from("");
    assert_eq!(prepare_candidate(&mut input, l), None);
    let mut input = String::from("12x4");
    assert_eq!(prepare_candidate(&mut input, l), None);
    let mut input = String::from("123456\n");
    assert_eq!(prepare_candidate(&mut input, l), Some(String::from("123456")));
}

#[test]
fn pin_shapes() {
    let l = PinLengths { min: 4, max: 6 };
    assert!(pin_shape_valid("0000", l));
    assert!(!pin_shape_valid("000", l));
    assert!(!pin_shape_valid("0000000", l));
    assert!(!pin_shape_valid("00a0", l));
}

#[test]
fn new_pin_rules() {
    let l = PinLengths::standard();
    assert_eq!(check_new_pin("1357", "1357", l), Ok(()));
    assert_eq!(check_new_pin("1357", "1358", l), Err(ProvisionError::PinMismatch));
    assert_eq!(check_new_pin("1357", "1357", PinLengths { min: 0, max: 6 }), Err(ProvisionError::BadMinLength));
    assert_eq!(check_new_pin("1357", "1357", PinLengths { min: 33, max: 40 }), Err(ProvisionError::BadMinLength));
    assert_eq!(check_new_pin("1357", "1357", PinLengths { min: 6, max: 4 }), Err(ProvisionError::MaxBelowMin));
    assert_eq!(check_new_pin("135", "135", l), Err(ProvisionError::TooShort));
    assert_eq!(check_new_pin("1357913", "1357913", l), Err(ProvisionError::TooLong));
    assert_eq!(check_new_pin("13a7", "13a7", l), Err(ProvisionError::NotDigits));
    assert_eq!(ProvisionError::PinMismatch.message(), "PINs do not match");
    assert_eq!(ProvisionError::BadMinLength.message(), "Unreasonable PIN_MIN_LEN");
    assert_eq!(ProvisionError::MaxBelowMin.message(), "PIN_MAX_LEN is less than PIN_MIN_LEN");
    assert_eq!(ProvisionError::TooShort.message(), "PIN shorter than minimum");
    assert_eq!(ProvisionError::TooLong.message(), "PIN longer than allowed maximum");
    assert_eq!(ProvisionError::NotDigits.message(), "PIN must contain only digits (0-9)");
}

#[test]
fn pin_pairs() {
    assert_eq!(split_pin_pair("1357"), (String::from("1357"), String::from("1357")));
    assert_eq!(split_pin_pair("1357:2468"), (String::from("1357"), String::from("2468")));
    assert_eq!(split_pin_pair("1:2:3"), (String::from("1"), String::from("2:3")));
    assert_eq!(split_pin_pair(":"), (String::new(), String::new()));
}

#[test]
fn store_paths() {
    assert_eq!(secret_path("/etc/pin.d", "alice"), "/etc/pin.d/alice.passwd");
    assert_eq!(fail_path("/etc/pin.d", "alice"), "/etc/pin.d/alice.fail");
}

#[test]
fn store_directory_policy() {
    let good = DirInfo { is_symlink: false, owner_uid: 0, mode: 0o700 };
    assert_eq!(secure_resolve_pin_dir("/etc/pin.d", true, Some(good)), Ok(String::from("/etc/pin.d")));
    assert_eq!(secure_resolve_pin_dir("pin.d", true, Some(good)), Err(DirError::NotAbsolute));
    assert_eq!(secure_resolve_pin_dir("/etc/pin.d", true, None), Err(DirError::Missing));
    assert_eq!(
        secure_resolve_pin_dir("/etc/pin.d", true, Some(DirInfo { is_symlink: true, ..good })),
        Err(DirError::Symlink)
    );
    assert_eq!(
        secure_resolve_pin_dir("/etc/pin.d", true, Some(DirInfo { owner_uid: 1000, ..good })),
        Err(DirError::NotRootOwned)
    );
    assert_eq!(
        secure_resolve_pin_dir("/etc/pin.d", true, Some(DirInfo { mode: 0o720, ..good })),
        Err(DirError::Writable)
    );
    assert_eq!(
        secure_resolve_pin_dir("/etc/pin.d", true, Some(DirInfo { mode: 0o702, ..good })),
        Err(DirError::Writable)
    );
    assert_eq!(secure_resolve_pin_dir("pin.d", false, None), Ok(String::from("pin.d")));
}

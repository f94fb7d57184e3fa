use git_ents::signers::{allowed_signers, Signer};

const KEY_A: &str =
    "ssh-ed25519 AAAAC3NzaC1lZDI1NTE5AAAAIaaaaaaaaaaaaaaaaaaaaaaaaaaaaaaaaaaaaaaaaaaA alice";

fn signer(fingerprint: &str, key: &str) -> Signer {
    Signer {
        fingerprint: fingerprint.to_owned(),
        key: key.to_owned(),
        valid_after: None,
        valid_before: None,
    }
}

#[test]
fn signers_renders_a_wildcard_allowed_signers_file() {
    assert_eq!(
        allowed_signers(&[signer("SHA256-aaa", KEY_A)]),
        format!("* namespaces=\"git\" {KEY_A}\n")
    );
}

#[test]
fn signers_renders_the_validity_window_as_comma_joined_options() {
    let mut bounded = signer("SHA256-aaa", KEY_A);
    bounded.valid_after = Some("20260101".to_owned());
    bounded.valid_before = Some("20270101".to_owned());
    assert_eq!(
        allowed_signers(&[bounded]),
        format!(
            "* valid-after=\"20260101\",valid-before=\"20270101\",namespaces=\"git\" {KEY_A}\n"
        )
    );
}

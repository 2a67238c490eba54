use sshsign_commit::assemble::{attach_signature, first_available, initial_commit, signing_payload};
use sshsign_commit::commit::{encode, Identity, Time};
use sshsign_commit::signed::{signature_of, trim, with_signature, without_signature};

const EMPTY_TREE: &str = "4b825dc642cb6eb9a060e54bf8d69288fbee4904";
const ARMOR: &str = "-----BEGIN SSH SIGNATURE-----\nU1NIU0lHAAAAAQAAADMAAAALc3NoLWVkMjU1MTkAAAAg\nAAAAA2dpdAAAAAAAAAAGc2hhMjU2AAAAUwAAAAtzc2gt\n-----END SSH SIGNATURE-----\n";

fn unhex(s: &str) -> Vec<u8> {
    (0..s.len() / 2)
        .map(|i| u8::from_str_radix(&s[2 * i..2 * i + 2], 16).unwrap())
        .collect()
}

fn bob() -> Identity {
    Identity {
        name: b"Bob".to_vec(),
        email: b"bob@example.com".to_vec(),
        time: Time { seconds: 1700000000, offset_minutes: 0 },
    }
}

#[test]
fn trims_armor() {
    assert_eq!(trim(&b"  \n-----A-----\nx\n\r\n".to_vec()), b"-----A-----\nx".to_vec());
    assert_eq!(trim(&b" \t\n".to_vec()), Vec::<u8>::new());
    assert_eq!(trim(&b"ab".to_vec()), b"ab".to_vec());
}

#[test]
fn end_to_end_bootstrap_commit() {
    let draft = initial_commit(unhex(EMPTY_TREE), &bob(), b"Initial commit".to_vec());
    let payload = signing_payload(&draft);
    let (bytes, signed) = attach_signature(draft.clone(), &ARMOR.as_bytes().to_vec());

    assert_eq!(signed.message, b"Initial commit".to_vec());
    assert_eq!(signed.author.name, b"Bob".to_vec());
    assert_eq!(signed.author.email, b"bob@example.com".to_vec());
    assert_eq!(signed.committer.name, b"Bob".to_vec());
    assert_eq!(signed.committer.email, b"bob@example.com".to_vec());
    assert_eq!(signed.tree, unhex(EMPTY_TREE));
    assert_eq!(bytes, encode(&signed));

    let text = String::from_utf8(bytes.clone()).unwrap();
    assert!(text.starts_with(&format!("tree {EMPTY_TREE}\n")));
    let folded = ARMOR.trim().replace('\n', "\n ");
    let expected = String::from_utf8(payload.clone())
        .unwrap()
        .replace("\n\nInitial commit", &format!("\ngpgsig {folded}\n\nInitial commit"));
    assert_eq!(text, expected);

    let sig = signature_of(&signed).unwrap();
    assert_eq!(sig, ARMOR.trim().as_bytes().to_vec());
    assert_eq!(encode(&without_signature(signed)), payload);
}

#[test]
fn unsigned_commit_has_no_signature() {
    let draft = initial_commit(unhex(EMPTY_TREE), &bob(), b"m".to_vec());
    assert!(signature_of(&draft).is_none());
    let s = with_signature(draft, b"first".to_vec());
    let s = with_signature(s, b"second".to_vec());
    assert_eq!(signature_of(&s), Some(b"first".to_vec()));
    assert!(without_signature(s).extra_headers.is_empty());
}

#[test]
fn picks_first_found_key() {
    assert_eq!(first_available(&vec![false, true, true]), Some(1));
    assert_eq!(first_available(&vec![true, false, true]), Some(0));
    assert_eq!(first_available(&vec![false, false, false]), None);
    assert_eq!(first_available(&vec![]), None);
}

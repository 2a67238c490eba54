use sshsign_commit::commit::{encode, Commit, Identity, Time};
use sshsign_commit::fold::{fold_value, unfold_value};
use sshsign_commit::text::{push_dec, push_hex, push_signed_dec};

const EMPTY_TREE: &str = "4b825dc642cb6eb9a060e54bf8d69288fbee4904";

fn unhex(s: &str) -> Vec<u8> {
    (0..s.len() / 2)
        .map(|i| u8::from_str_radix(&s[2 * i..2 * i + 2], 16).unwrap())
        .collect()
}

fn bob(seconds: i64, offset_minutes: i32) -> Identity {
    Identity {
        name: b"Bob".to_vec(),
        email: b"bob@example.com".to_vec(),
        time: Time { seconds, offset_minutes },
    }
}

fn sample() -> Commit {
    Commit {
        tree: unhex(EMPTY_TREE),
        parents: vec![],
        author: bob(1700000000, 60),
        committer: bob(1700000000, 60),
        encoding: None,
        extra_headers: vec![],
        message: b"Initial commit".to_vec(),
    }
}

#[test]
fn encodes_root_commit() {
    let out = encode(&sample());
    let expected = format!(
        "tree {EMPTY_TREE}\nauthor Bob <bob@example.com> 1700000000 +0100\ncommitter Bob <bob@example.com> 1700000000 +0100\n\nInitial commit"
    );
    assert_eq!(String::from_utf8(out).unwrap(), expected);
}

#[test]
fn encoding_is_deterministic() {
    let c = sample();
    assert_eq!(encode(&c), encode(&c));
    assert_eq!(encode(&c), encode(&c.clone()));
}

#[test]
fn encodes_parents_encoding_and_headers_in_order() {
    let mut c = sample();
    c.parents = vec![vec![0x01; 20], vec![0xab; 20]];
    c.author = bob(-5, -330);
    c.encoding = Some(b"ISO-8859-1".to_vec());
    c.extra_headers = vec![
        (b"zeta".to_vec(), b"1".to_vec()),
        (b"alpha".to_vec(), b"a\nb".to_vec()),
    ];
    c.message = b"msg\n".to_vec();
    let out = String::from_utf8(encode(&c)).unwrap();
    let expected = format!(
        "tree {EMPTY_TREE}\nparent {}\nparent {}\nauthor Bob <bob@example.com> -5 -0530\ncommitter Bob <bob@example.com> 1700000000 +0100\nencoding ISO-8859-1\nzeta 1\nalpha a\n b\n\nmsg\n",
        "01".repeat(20),
        "ab".repeat(20)
    );
    assert_eq!(out, expected);
}

#[test]
fn renders_numbers() {
    let mut v = Vec::new();
    push_dec(&mut v, 0);
    push_dec(&mut v, 1234567890);
    push_signed_dec(&mut v, i64::MIN);
    push_hex(&mut v, &vec![0x00, 0x0f, 0xf0, 0xff]);
    assert_eq!(
        String::from_utf8(v).unwrap(),
        "01234567890-9223372036854775808000ff0ff"
    );
}

#[test]
fn folds_continuation_lines() {
    assert_eq!(fold_value(&b"a\nb\n\nc".to_vec()), b"a\n b\n \n c".to_vec());
    assert_eq!(unfold_value(&b"a\n b\n \n c".to_vec()), b"a\nb\n\nc".to_vec());
    assert_eq!(unfold_value(&b"x\ny".to_vec()), b"x\ny".to_vec());
    assert_eq!(fold_value(&vec![]), Vec::<u8>::new());
}

#[test]
fn fold_round_trips_long_values() {
    for lines in [2usize, 10, 50] {
        let value: Vec<u8> = (0..lines)
            .map(|i| format!("line {i} of the armor"))
            .collect::<Vec<_>>()
            .join("\n")
            .into_bytes();
        let folded = fold_value(&value);
        assert_eq!(folded.iter().filter(|b| **b == b'\n').count(), lines - 1);
        assert_eq!(unfold_value(&folded), value);
    }
}

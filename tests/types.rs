use undr::configuration::InstallableMode;
use undr::types::Doi;
use undr::types::Name;
use undr::types::PathId;
use undr::types::PathRoot;

fn hash_of(text: &str) -> undr::digest::Hash {
    undr::digest::Hash::deserialize(text).unwrap()
}

#[test]
fn test_hash_serde() {
    let hash_json = "\"10ada4f8679a20c4d4f8fea56e8552e667f01a405611ca8c0463546c\"";
    let text: String = serde_json::from_str(&hash_json).unwrap();
    let hash = undr::digest::Hash::deserialize(&text).unwrap();
    let hash_json_2 = serde_json::to_string(&hash.serialize()).unwrap();
    assert_eq!(hash_json, hash_json_2);
}

#[test]
fn test_bibtex_message() {
    println!(
        "{:?}",
        undr::Message::IndexLoaded { path_id: PathId("test".to_owned()), children: 1 }
    );
    println!(
        "{:?}",
        undr::Message::DoiProgress {
            value: Doi("10.test".to_owned()),
            status: undr::types::DoiStatus::Start,
        }
    );
    println!(
        "{:?}",
        undr::Message::DoiProgress {
            value: Doi("10.test".to_owned()),
            status: undr::types::DoiStatus::Success("a BibTex string".to_owned()),
        }
    );
}

#[test]
fn hash_bytes_are_read_in_pairs() {
    let hash = hash_of("00ff10a0000000000000000000000000000000000000000000000001");
    assert_eq!(hash.0[0], 0x00);
    assert_eq!(hash.0[1], 0xff);
    assert_eq!(hash.0[2], 0x10);
    assert_eq!(hash.0[3], 0xa0);
    assert_eq!(hash.0[27], 0x01);
}

#[test]
fn hash_text_is_refused_when_malformed() {
    assert!(undr::digest::Hash::deserialize("10ada4").is_none());
    assert!(undr::digest::Hash::deserialize(
        "10ADA4F8679A20C4D4F8FEA56E8552E667F01A405611CA8C0463546C"
    )
    .is_none());
    assert!(undr::digest::Hash::deserialize(
        "10ada4f8679a20c4d4f8fea56e8552e667f01a405611ca8c0463546c00"
    )
    .is_none());
    assert!(undr::digest::Hash::deserialize(
        "10ada4f8679a20c4d4f8fea56e8552e667f01a405611ca8c0463546g"
    )
    .is_none());
}

#[test]
fn hash_comparison() {
    let a = hash_of("10ada4f8679a20c4d4f8fea56e8552e667f01a405611ca8c0463546c");
    let b = hash_of("10ada4f8679a20c4d4f8fea56e8552e667f01a405611ca8c0463546d");
    assert!(a.same(&a));
    assert!(!a.same(&b));
}

#[test]
fn names_follow_their_grammar() {
    assert!(Name::deserialize("dvs_0.1-a.es".to_owned()).is_some());
    assert!(Name::deserialize(String::new()).is_none());
    assert!(Name::deserialize("a/b".to_owned()).is_none());
    assert!(Name::deserialize("a b".to_owned()).is_none());
    assert!(Name::deserialize("é".to_owned()).is_none());
    assert_eq!(Name::deserialize("x".to_owned()).unwrap().0, "x");
}

#[test]
fn dois_follow_their_grammar() {
    assert!(Doi::deserialize("10.1109/CVPR.2019".to_owned()).is_some());
    assert!(Doi::deserialize("10.".to_owned()).is_none());
    assert!(Doi::deserialize("11.x".to_owned()).is_none());
    assert!(Doi::deserialize("10.x\ny".to_owned()).is_none());
    assert!(Doi::deserialize("10ax".to_owned()).is_none());
}

#[test]
fn path_ids_join_with_a_slash() {
    let p = PathId("d".to_owned()).join(&Name("x.es".to_owned()));
    assert_eq!(p.0, "d/x.es");
    let q: PathId = Name("root".to_owned()).into();
    assert_eq!(q.0, "root");
}

#[test]
fn path_root_joins_with_its_separator() {
    let root = PathRoot { root: "/data".to_owned(), separator: '/' };
    let p = PathId("d/x".to_owned());
    assert_eq!(root.join(&p), "/data/d/x");
    assert_eq!(root.join_with_suffix(&p, ".br"), "/data/d/x.br");
    assert_eq!(root.join_with_suffixes(&p, ".br", ".download"), "/data/d/x.br.download");
    let slashed = PathRoot { root: "/data/".to_owned(), separator: '/' };
    assert_eq!(slashed.join(&p), "/data/d/x");
    let windows = PathRoot { root: "C:\\data".to_owned(), separator: '\\' };
    assert_eq!(windows.join(&p), "C:\\data\\d\\x");
    let native = PathRoot::new("/data".to_owned());
    assert!(native.separator == '/' || native.separator == '\\');
}

#[test]
fn decimals_have_no_leading_zeros() {
    assert_eq!(undr::text::decimal_string(0), "0");
    assert_eq!(undr::text::decimal_string(7), "7");
    assert_eq!(undr::text::decimal_string(1024), "1024");
    assert_eq!(undr::text::decimal_string(u64::MAX), "18446744073709551615");
}

#[test]
fn strings_compare_lexicographically() {
    assert!(undr::text::str_le("a/b", "a/c"));
    assert!(undr::text::str_le("a", "a/b"));
    assert!(!undr::text::str_le("b", "a/b"));
    assert!(undr::text::str_le("x", "x"));
    assert!(undr::text::starts_with("d/x", "d"));
    assert!(!undr::text::starts_with("d", "d/x"));
}

#[test]
fn modes_that_install() {
    assert_eq!(InstallableMode::try_from(undr::Mode::Disabled), Err(()));
    assert_eq!(InstallableMode::try_from(undr::Mode::Remote), Ok(InstallableMode::Remote));
    assert_eq!(InstallableMode::try_from(undr::Mode::Local), Ok(InstallableMode::Local));
    assert_eq!(InstallableMode::try_from(undr::Mode::Raw), Ok(InstallableMode::Raw));
}

use krill_store::handle::Handle;
use krill_store::ipfs::{IpfsPath, PubKey, RepoPubKey, TalPubKey, extract_cid};
use krill_store::records::{
    AggregateInfo, CommandKey, Key, KeyStoreVersion, StoredCommandBuilder, StoredEffect,
};

#[test]
fn handle_equality_is_by_value() {
    assert_eq!(Handle::from_str("h1"), Handle::from_str("h1"));
    assert_ne!(Handle::from_str("h1"), Handle::from_str("h2"));
    assert_eq!(Handle::new(String::from("x")).as_str(), "x");
    let h = Handle::from_str("abc");
    assert_eq!(h.clone(), h);
}

#[test]
fn info_starts_zeroed() {
    let info = AggregateInfo::default();
    assert_eq!(info.last_update, 0);
    assert_eq!(info.last_command, 0);
    assert_eq!(info.last_event, 0);
    assert_eq!(info.snapshot_version, 0);
}

#[test]
fn command_key_names_its_store_key() {
    let k = CommandKey::new(7);
    assert_eq!(k.sequence, 7);
    assert_eq!(k.as_key(), Key::Command(7));
    assert_eq!(KeyStoreVersion::V0_6, KeyStoreVersion::V0_6);
}

#[test]
fn builder_finishes_with_events() {
    let b = StoredCommandBuilder::new(41u64, 3, 2, 99);
    let c = b.finish_with_events(vec![4, 5]);
    assert_eq!(c.details, 41);
    assert_eq!(c.sequence, 2);
    assert_eq!(c.version, 3);
    assert_eq!(c.timestamp, 99);
    assert_eq!(c.effect, StoredEffect::Events(vec![4, 5]));
}

#[test]
fn builder_finishes_with_error() {
    let b = StoredCommandBuilder::new(1u64, 0, 1, 7);
    let c = b.finish_with_error(String::from("boom"));
    assert_eq!(c.effect, StoredEffect::Error(String::from("boom")));
}

#[test]
fn ipfs_path_renders_its_text() {
    let p = IpfsPath(String::from("/var/ipfs"));
    assert_eq!(p.value(), "/var/ipfs");
    assert_eq!(p.to_string(), String::from("/var/ipfs"));
    assert_eq!(p.clone(), p);
}

#[test]
fn pub_keys_hand_out_their_text() {
    let r = RepoPubKey(String::from("repo-key"));
    assert_eq!(r.value(), "repo-key");
    assert_eq!(r.key(), String::from("repo-key"));
    let t = TalPubKey(String::from("tal-key"));
    assert_eq!(t.value(), "tal-key");
    assert_eq!(t.key(), String::from("tal-key"));
}

#[test]
fn extract_cid_takes_second_token_of_last_line() {
    assert_eq!(
        extract_cid("added QmAbCd file.txt\n"),
        Some(String::from("QmAbCd"))
    );
    assert_eq!(
        extract_cid("added QmFirst a\nadded QmSecond b\n"),
        Some(String::from("QmSecond"))
    );
    // Without a trailing line break the last line is the same.
    assert_eq!(extract_cid("added QmX y"), Some(String::from("QmX")));
    // The token runs to the end when no further space follows.
    assert_eq!(extract_cid("added QmOnly"), Some(String::from("QmOnly")));
}

#[test]
fn extract_cid_absent_without_a_space() {
    assert_eq!(extract_cid(""), None);
    assert_eq!(extract_cid("\n"), None);
    assert_eq!(extract_cid("nospacehere"), None);
    assert_eq!(extract_cid("added QmX y\nlastlinewithoutspace"), None);
}

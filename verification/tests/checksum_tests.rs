use sha1::Digest;
use treesum::checksum::Checksum;
use treesum::seed::{dir_seed, file_seed, socket_seed, symlink_seed};
use treesum::walk::{checksum_of_entries, classify, Action, EntryKind, EntryRecord};
use treesum::DIGEST_LEN;

const TAG_FILE: u8 = b'f';
const TAG_DIR: u8 = b'd';
const TAG_SYMLINK: u8 = b'l';
const TAG_SOCKET: u8 = b's';

/// The byte layout a seed digests: name length, name, mode, tag, payload.
fn layout(name: &[u8], mode: u32, tag: u8, payload: &[u8]) -> Vec<u8> {
    let mut buf = Vec::new();
    buf.extend((name.len() as u64).to_le_bytes());
    buf.extend(name);
    buf.extend(mode.to_le_bytes());
    buf.push(tag);
    buf.extend(payload);
    buf
}

fn sha1_bytes(input: &[u8]) -> Vec<u8> {
    sha1::Sha1::digest(input).to_vec()
}

fn xor(a: &[u8], b: &[u8]) -> Vec<u8> {
    a.iter().zip(b.iter()).map(|(x, y)| x ^ y).collect()
}

fn record(kind: EntryKind, name: &[u8], mode: u32, payload: &[u8]) -> EntryRecord {
    EntryRecord { kind, name: name.to_vec(), mode, payload: payload.to_vec() }
}

fn sample_tree() -> Vec<EntryRecord> {
    vec![
        record(EntryKind::Directory, b"dir", 0o040755, b""),
        record(EntryKind::File, b"dir/a.txt", 0o100644, b"hello"),
        record(EntryKind::File, b"dir/b.txt", 0o100644, b""),
        record(EntryKind::Symlink, b"dir/link", 0o120777, b"a.txt"),
    ]
}

fn digest_of(entries: &Vec<EntryRecord>, ignore: bool) -> Vec<u8> {
    checksum_of_entries(entries, ignore).unwrap().value().clone()
}

#[test]
fn file_seed_matches_sha1_of_layout() {
    let seed = file_seed(&b"a.txt".to_vec(), 0o100644, &b"hello".to_vec());
    let expected = sha1_bytes(&layout(b"a.txt", 0o100644, TAG_FILE, b"hello"));
    assert_eq!(seed, expected);
    assert_eq!(seed.len(), DIGEST_LEN);
    assert_ne!(seed, layout(b"a.txt", 0o100644, TAG_FILE, b"hello"));
}

#[test]
fn symlink_seed_digests_target_bytes() {
    let seed = symlink_seed(&b"link".to_vec(), 0o120777, &b"a.txt".to_vec());
    let expected = sha1_bytes(&layout(b"link", 0o120777, TAG_SYMLINK, b"a.txt"));
    assert_eq!(seed, expected);
}

#[test]
fn dir_and_socket_seeds_have_no_payload() {
    let dir = dir_seed(&b"d".to_vec(), 0o040755);
    assert_eq!(dir, sha1_bytes(&layout(b"d", 0o040755, TAG_DIR, b"")));
    let sock = socket_seed(&b"s".to_vec(), 0o140755);
    assert_eq!(sock, sha1_bytes(&layout(b"s", 0o140755, TAG_SOCKET, b"")));
}

#[test]
fn zero_length_file_hashes_prefix_only() {
    let seed = file_seed(&b"empty".to_vec(), 0o100644, &Vec::new());
    let expected = sha1_bytes(&layout(b"empty", 0o100644, TAG_FILE, b""));
    assert_eq!(seed, expected);
    assert_eq!(seed.len(), DIGEST_LEN);
}

#[test]
fn empty_file_and_empty_dir_differ() {
    let name = b"same".to_vec();
    let file = file_seed(&name, 0o755, &Vec::new());
    let dir = dir_seed(&name, 0o755);
    assert_ne!(file, dir);

    let as_file = vec![record(EntryKind::File, b"same", 0o755, b"")];
    let as_dir = vec![record(EntryKind::Directory, b"same", 0o755, b"")];
    assert_ne!(digest_of(&as_file, false), digest_of(&as_dir, false));
}

#[test]
fn content_change_changes_checksum() {
    let mut tree = sample_tree();
    let base = digest_of(&tree, false);
    tree[1].payload = b"hellp".to_vec();
    assert_ne!(digest_of(&tree, false), base);
}

#[test]
fn rename_changes_checksum() {
    let mut tree = sample_tree();
    let base = digest_of(&tree, false);
    tree[1].name = b"dir/c.txt".to_vec();
    assert_ne!(digest_of(&tree, false), base);
}

#[test]
fn mode_change_changes_checksum() {
    let mut tree = sample_tree();
    let base = digest_of(&tree, false);
    tree[1].mode = 0o100600;
    assert_ne!(digest_of(&tree, false), base);
}

#[test]
fn symlink_target_change_changes_checksum() {
    let mut tree = sample_tree();
    // Give b.txt the same content as a.txt, then repoint the link from a.txt
    // to b.txt: the target string changes even though the contents agree.
    tree[2].payload = b"hello".to_vec();
    let base = digest_of(&tree, false);
    tree[3].payload = b"b.txt".to_vec();
    assert_ne!(digest_of(&tree, false), base);
}

#[test]
fn scenario_digest_is_order_independent() {
    let tree = sample_tree();
    let mut swapped = sample_tree();
    swapped.swap(1, 2);
    let d = digest_of(&tree, false);
    assert_eq!(d, digest_of(&swapped, false));

    // The digest is exactly the bytewise exclusive-or of the four seeds.
    let mut expected = vec![0u8; DIGEST_LEN];
    expected = xor(&expected, &sha1_bytes(&layout(b"dir", 0o040755, TAG_DIR, b"")));
    expected = xor(&expected, &sha1_bytes(&layout(b"dir/a.txt", 0o100644, TAG_FILE, b"hello")));
    expected = xor(&expected, &sha1_bytes(&layout(b"dir/b.txt", 0o100644, TAG_FILE, b"")));
    expected = xor(&expected, &sha1_bytes(&layout(b"dir/link", 0o120777, TAG_SYMLINK, b"a.txt")));
    assert_eq!(d, expected);
}

#[test]
fn repeated_runs_agree() {
    let tree = sample_tree();
    assert_eq!(digest_of(&tree, false), digest_of(&tree, false));
}

#[test]
fn unknown_entry_is_fatal_unless_ignored() {
    let mut tree = sample_tree();
    tree.insert(2, record(EntryKind::Other, b"dir/fifo", 0o010644, b""));
    assert_eq!(checksum_of_entries(&tree, false).unwrap_err(), 2);

    let without: Vec<EntryRecord> = sample_tree();
    assert_eq!(digest_of(&tree, true), digest_of(&without, false));
}

#[test]
fn classify_routes_each_kind() {
    assert!(matches!(classify(EntryKind::File, false), Action::EncodeFile));
    assert!(matches!(classify(EntryKind::Directory, false), Action::EncodeDirectory));
    assert!(matches!(classify(EntryKind::Symlink, false), Action::EncodeSymlink));
    assert!(matches!(classify(EntryKind::Socket, false), Action::EncodeSocket));
    assert!(matches!(classify(EntryKind::Other, false), Action::Fatal));
    assert!(matches!(classify(EntryKind::Other, true), Action::Skip));
}

#[test]
fn accumulator_submissions_commute() {
    let a = file_seed(&b"a".to_vec(), 1, &b"x".to_vec());
    let b = file_seed(&b"b".to_vec(), 2, &b"y".to_vec());

    let mut first = Checksum::new();
    first.put(&a);
    first.put(&b);
    let mut second = Checksum::new();
    second.put(&b);
    second.put(&a);
    assert_eq!(first.value(), second.value());
}

#[test]
fn accumulator_starts_at_zero_and_xors() {
    let seed = socket_seed(&b"s".to_vec(), 0);
    let mut cs = Checksum::new();
    assert_eq!(cs.value(), &vec![0u8; DIGEST_LEN]);
    cs.put(&seed);
    assert_eq!(cs.value(), &seed);
    cs.put(&seed);
    assert_eq!(cs.value(), &vec![0u8; DIGEST_LEN]);
}

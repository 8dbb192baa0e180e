use frostbuild::graph_store::{
    entries_hash, is_skipped, manifest_fingerprint, parse_header, same_stamp, sources_stamp,
    stamped_manifests, store_bytes, store_path, DirStamp, FileKind, GraphStore, Listed,
    SourcesStamp, StoreError,
};
use frostbuild::hashcache::{hash_file, stat_triple, Checked, HashCache, Stat, MISSING};
use frostbuild::journal::{decode_bytes, Journal, JournalEntry};
use frostbuild::sorted_map::SortedMap;

fn map(pairs: &[(&str, &str)]) -> SortedMap<String> {
    let mut out = SortedMap::new();
    for (key, value) in pairs {
        out.insert(key.to_string(), value.to_string());
    }
    out
}

fn entry(key: &str, reason: &str) -> JournalEntry {
    JournalEntry {
        key: key.to_string(),
        inputs: map(&[("src/main.c", "h1")]),
        discovered: vec!["include/util.h".to_string()],
        outputs: map(&[(".frost/obj/app/src/main.c.o", "h2")]),
        duration_ms: 12,
        reason: reason.to_string(),
    }
}

// The journal

#[test]
fn roundtrip() {
    let mut journal = Journal {
        actions: SortedMap::new(),
    };
    journal.record(
        "compile:app:src/main.c".to_string(),
        entry("abc", "input changed: src/main.c"),
    );
    let file = journal.save().unwrap();

    let loaded = Journal::load(&file, None);
    assert_eq!(loaded.actions.len(), 1);
    let found = loaded.actions.get("compile:app:src/main.c").unwrap();
    assert_eq!(found.key, "abc");
    assert_eq!(found.inputs.get("src/main.c").unwrap(), "h1");
    assert_eq!(found.discovered, ["include/util.h"]);
    assert_eq!(found.outputs.len(), 1);
    assert_eq!(found.duration_ms, 12);
    assert_eq!(found.reason, "input changed: src/main.c");
}

#[test]
fn missing_or_corrupt_journal_loads_empty() {
    assert!(Journal::load(b"", None).actions.is_empty());
    assert!(Journal::load(b"FRSTJR01\xff\xff", None).actions.is_empty());
    assert!(Journal::load(b"something else", None).actions.is_empty());
}

#[test]
fn incomplete_tail_preserves_completed_records() {
    let mut file = Journal::record_bytes("a", &entry("k", "first"), true).unwrap();
    file.extend_from_slice(&100u32.to_le_bytes());
    file.extend_from_slice(b"partial");
    assert!(Journal::load(&file, None).actions.contains_key("a"));
}

#[test]
fn a_record_behind_a_torn_one_is_found() {
    let first = Journal::record_bytes("a", &entry("1", ""), true).unwrap();
    let second = Journal::record_bytes("b", &entry("2", ""), false).unwrap();
    let third = Journal::record_bytes("c", &entry("3", ""), false).unwrap();
    let mut file = first.clone();
    file.extend(&second[..second.len() - 3]);
    assert_eq!(Journal::whole_prefix(&file), first.len());
    file.truncate(Journal::whole_prefix(&file));
    file.extend(&third);
    let found = decode_bytes(&file);
    assert_eq!(found.len(), 2);
    assert_eq!(found.get("c").unwrap().key, "3");
    assert_eq!(Journal::whole_prefix(&file), file.len());
    assert_eq!(Journal::whole_prefix(b"FRSTJR0"), 0);
    assert_eq!(Journal::whole_prefix(b"FRSTJR01\xff"), 8);
}

#[test]
fn the_last_record_of_an_action_counts() {
    let mut file = Journal::record_bytes("a", &entry("old", "first"), true).unwrap();
    file.extend(Journal::record_bytes("b", &entry("other", "first"), false).unwrap());
    file.extend(Journal::record_bytes("a", &entry("new", "again"), false).unwrap());
    let actions = decode_bytes(&file);
    assert_eq!(actions.len(), 2);
    assert_eq!(actions.get("a").unwrap().key, "new");
    for cut in 0..file.len() {
        assert!(decode_bytes(&file[..cut]).len() <= 2);
    }
}

#[test]
fn a_journal_in_the_older_form_is_kept() {
    let mut older = Journal {
        actions: SortedMap::new(),
    };
    older.record("a".to_string(), entry("k", "first"));
    assert!(Journal::load(b"", Some(older)).actions.contains_key("a"));
}

#[test]
fn a_record_is_what_postcard_writes() {
    let file = Journal::record_bytes("a", &entry("k", "first"), true).unwrap();
    assert_eq!(&file[..8], b"FRSTJR01");
    let length = u32::from_le_bytes(file[8..12].try_into().unwrap()) as usize;
    assert_eq!(file.len(), 12 + length);
    assert_eq!(&file[12..14], &[1, b'a']);
}

// Digests of files

fn stat(mtime: i64, size: u64) -> Stat {
    stat_triple(mtime, 0, size, 0o644, 1)
}

fn digest(cache: &mut HashCache, rel: &str, seen: Option<Stat>, content: &[u8]) -> String {
    match cache.digest(rel, seen) {
        Checked::Known(hash) => hash,
        Checked::Unknown => {
            let hash = hash_file(false, content);
            cache.store(rel, seen.unwrap(), &hash);
            hash
        }
    }
}

#[test]
fn missing_file_digests_as_missing() {
    let mut cache = HashCache::new();
    assert_eq!(digest(&mut cache, "no/such/file", None, b""), MISSING);
}

#[test]
fn caches_and_detects_content_change() {
    let mut cache = HashCache::new();
    let first = digest(&mut cache, "a.txt", Some(stat(1, 3)), b"one");
    assert_eq!(
        digest(&mut cache, "a.txt", Some(stat(1, 3)), b"one"),
        first,
        "repeat is stable"
    );
    assert_eq!(
        digest(&mut cache, "a.txt", Some(stat(2, 10)), b"two-longer"),
        first,
        "a write frost did not make is not observed mid-build"
    );
    cache.invalidate("a.txt");
    let second = digest(&mut cache, "a.txt", Some(stat(2, 10)), b"two-longer");
    assert_ne!(first, second, "invalidate restores freshness");
    assert_eq!(
        digest(&mut HashCache::new(), "a.txt", Some(stat(2, 10)), b"two-longer"),
        second
    );
}

#[test]
fn save_and_load_roundtrip() {
    let mut cache = HashCache::load(b"");
    let hash = digest(&mut cache, "a.txt", Some(stat(1, 7)), b"content");
    let file = cache.save().unwrap();

    let mut reloaded = HashCache::load(&file);
    assert!(matches!(
        reloaded.digest("a.txt", Some(stat(1, 7))),
        Checked::Known(found) if found == hash
    ));
    assert!(matches!(
        HashCache::load(&file).digest("a.txt", Some(stat(2, 7))),
        Checked::Unknown
    ));
}

#[test]
fn a_mode_is_part_of_what_is_hashed() {
    assert_ne!(hash_file(true, b"x"), hash_file(false, b"x"));
    assert_ne!(stat_triple(1, 0, 1, 0o755, 1), stat_triple(1, 0, 1, 0o644, 1));
}

#[test]
fn many_files_are_looked_up_at_once() {
    let mut cache = HashCache::new();
    let known = digest(&mut cache, "a", Some(stat(1, 1)), b"a");
    let found = cache.digest_many(
        &vec!["a".to_string(), "b".to_string(), "c".to_string()],
        &vec![Some(stat(1, 1)), None, Some(stat(1, 1))],
    );
    assert!(matches!(&found[0], Checked::Known(hash) if *hash == known));
    assert!(matches!(&found[1], Checked::Known(hash) if hash == MISSING));
    assert!(matches!(&found[2], Checked::Unknown));
}

// Kept graphs

fn stamp(mtime_ns: i128) -> SourcesStamp {
    SourcesStamp {
        manifests: vec![("frost.toml".to_string(), "abc".to_string())],
        dirs: vec![DirStamp {
            path: "src".to_string(),
            mtime_ns,
            entries_hash: [7; 32],
        }],
    }
}

fn kept() -> Vec<u8> {
    store_bytes(&manifest_fingerprint(b"manifest"), &stamp(5), b"payload").unwrap()
}

#[test]
fn a_kept_graph_is_read_back() {
    let parsed = parse_header(&kept()).unwrap();
    assert_eq!(parsed.fingerprint, blake3::hash(b"manifest").as_bytes());
    assert!(same_stamp(&parsed.stamp, &stamp(5)));
    assert_eq!(parsed.payload, b"payload");
    assert_eq!(GraphStore::validate_bytes(&kept()).unwrap(), b"payload");
    assert_eq!(stamped_manifests(&parsed.stamp), ["frost.toml"]);
}

#[test]
fn warm_path_hits_while_the_sources_are_the_same() {
    assert!(GraphStore::cached_sources_current(&kept(), &stamp(5)));
    assert_eq!(GraphStore::load_cached(&kept(), &stamp(5)).unwrap(), b"payload");
    assert_eq!(
        GraphStore::cached_fingerprint(&kept(), &stamp(5)).unwrap(),
        manifest_fingerprint(b"manifest")
    );
    assert!(!GraphStore::cached_sources_current(&kept(), &stamp(6)));
    assert!(matches!(
        GraphStore::load_cached(&kept(), &stamp(6)),
        Err(StoreError::SourcesChanged)
    ));
    assert!(GraphStore::cached_fingerprint(&kept(), &stamp(6)).is_none());
}

#[test]
fn a_kept_graph_belongs_to_its_manifest() {
    assert_eq!(
        GraphStore::load_matching(&kept(), &manifest_fingerprint(b"manifest")).unwrap(),
        b"payload"
    );
    assert!(matches!(
        GraphStore::load_matching(&kept(), &manifest_fingerprint(b"other")),
        Err(StoreError::Stale)
    ));
}

#[test]
fn a_broken_store_says_how() {
    assert!(matches!(parse_header(b"bad"), Err(StoreError::InvalidHeader)));
    let mut other = kept();
    other[8] ^= 1;
    assert!(matches!(
        parse_header(&other),
        Err(StoreError::UnsupportedVersion)
    ));
    let whole = kept();
    for cut in 0..whole.len() - b"payload".len() {
        assert!(parse_header(&whole[..cut]).is_err(), "{cut}");
    }
}

fn listed(name: &str, kind: FileKind) -> Listed {
    Listed {
        name: name.as_bytes().to_vec(),
        kind,
    }
}

#[test]
fn a_listing_is_hashed_in_one_order() {
    let one = entries_hash(&vec![
        listed("b", FileKind::File),
        listed("a", FileKind::Directory),
    ]);
    let two = entries_hash(&vec![
        listed("a", FileKind::Directory),
        listed("b", FileKind::File),
    ]);
    assert_eq!(one, two);
    assert_ne!(one, entries_hash(&vec![listed("b", FileKind::File)]));
    assert_ne!(
        entries_hash(&vec![listed("a", FileKind::File)]),
        entries_hash(&vec![listed("a", FileKind::Link)])
    );
}

#[test]
fn sources_are_stamped_by_content() {
    let paths = vec!["frost.toml".to_string()];
    let now = |text: &[u8], ignore: Option<Vec<u8>>| {
        sources_stamp(&paths, &vec![text.to_vec()], &ignore, &None, &Vec::new())
    };
    assert!(same_stamp(&now(b"a", None), &now(b"a", None)));
    assert!(!same_stamp(&now(b"a", None), &now(b"b", None)));
    assert!(!same_stamp(&now(b"a", None), &now(b"a", Some(b"out".to_vec()))));
    assert!(is_skipped(".git") && !is_skipped("src"));
    assert_eq!(store_path("/ws", "debug", "host"), "/ws/.frost/graph-debug.bin");
    assert_ne!(
        store_path("/ws", "debug", "x"),
        store_path("/ws", "x-debug", "host")
    );
}

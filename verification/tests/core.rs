use frostbuild::action_key::{fnv1a64, ActionKey};
use frostbuild::depfile::parse;
use frostbuild::fastcdc::{ChunkerError, FastCdc, DEFAULT_MIN};
use frostbuild::paths::{
    components_of, extension_of, file_name_of, join_path, relative_to, validate_rel_path,
};
use sha2::{Digest, Sha256};

fn parse_simple(text: &str) -> Vec<String> {
    parse(text, "/ws")
}

fn strings(items: &[&str]) -> Vec<String> {
    items.iter().map(|item| item.to_string()).collect()
}

#[test]
fn parses_basic_rule() {
    let deps = parse_simple("main.o: src/main.c include/util.h\n");
    assert_eq!(deps, vec!["include/util.h", "src/main.c"]);
}

#[test]
fn handles_line_continuations() {
    let deps = parse_simple("main.o: src/main.c \\\n  include/util.h \\\n  include/other.h\n");
    assert_eq!(
        deps,
        vec!["include/other.h", "include/util.h", "src/main.c"]
    );
}

#[test]
fn handles_escaped_spaces() {
    let deps = parse_simple("main.o: src/my\\ file.c\n");
    assert_eq!(deps, vec!["src/my file.c"]);
}

#[test]
fn excludes_phony_header_targets() {
    // gcc -MP emits phony rules like `include/util.h:` after the main rule.
    let deps = parse_simple("main.o: src/main.c include/util.h\n\ninclude/util.h:\n");
    assert_eq!(deps, vec!["src/main.c"]);
}

#[test]
fn relativizes_paths_under_root() {
    let deps = parse("main.o: /ws/src/main.c /usr/include/stdio.h\n", "/ws");
    assert_eq!(deps, vec!["/usr/include/stdio.h", "src/main.c"]);
}

#[test]
fn handles_dollar_and_hash_escapes() {
    let deps = parse_simple("main.o: src/a$$b.c src/c\\#d.c\n");
    assert_eq!(deps, vec!["src/a$b.c", "src/c#d.c"]);
}

#[test]
fn one_file_under_two_names_is_listed_once() {
    assert_eq!(parse("main.o: /ws/a.h a.h\n", "/ws"), ["a.h"]);
    assert_eq!(
        parse("main.o: /ws/b.h a.h /usr/include/c.h a.h\n", "/ws/"),
        ["/usr/include/c.h", "a.h", "b.h"]
    );
}

#[test]
fn a_depfile_without_a_rule_names_nothing() {
    assert!(parse_simple("").is_empty());
    assert!(parse_simple("main.o:\n").is_empty());
}

#[test]
fn accepts_and_normalizes() {
    assert_eq!(validate_rel_path("src/main.c").unwrap(), "src/main.c");
    assert_eq!(validate_rel_path("./src/main.c").unwrap(), "src/main.c");
}

#[test]
fn rejects_bad_paths() {
    assert!(validate_rel_path("").is_err());
    assert!(validate_rel_path("/etc/passwd").is_err());
    assert!(validate_rel_path("../escape.c").is_err());
    assert!(validate_rel_path("a//b").is_err());
    assert!(validate_rel_path("a\\b").is_err());
    assert!(validate_rel_path(".").is_err());
}

#[test]
fn paths_are_taken_apart_and_joined() {
    assert_eq!(components_of("/ws/./src//a.c"), ["/", "ws", "src", "a.c"]);
    assert_eq!(relative_to("/ws/src/a.c", "/ws").as_deref(), Some("src/a.c"));
    assert_eq!(relative_to("/other/a.c", "/ws"), None);
    assert_eq!(join_path("/ws", "src/a.c"), "/ws/src/a.c");
    assert_eq!(join_path("/ws", "/abs"), "/abs");
    assert_eq!(file_name_of("src/a.tar.gz").as_deref(), Some("a.tar.gz"));
    assert_eq!(extension_of("src/a.tar.gz").as_deref(), Some("gz"));
    assert_eq!(extension_of(".hidden"), None);
}

fn key(argv: &[&str], cwd: &str) -> ActionKey {
    ActionKey::new("builder", "app", &strings(argv), cwd, "tool")
}

#[test]
fn canonical_payload_sorts_env_and_inputs() {
    let root = "/repo";
    let a = key(&["compile", "app"], "/repo")
        .with_env("B", "2")
        .with_env("A", "1")
        .with_input("src/b", "bbb")
        .with_input("src/a", "aaa");
    let b = key(&["compile", "app"], "/repo/.")
        .with_env("A", "1")
        .with_env("B", "2")
        .with_input("src/a", "aaa")
        .with_input("src/b", "bbb");

    assert_eq!(a.canonical_payload(root), b.canonical_payload(root));
    assert_eq!(a.stable_id(root), b.stable_id(root));
    assert_eq!(a.digest(root), b.digest(root));
}

#[test]
fn flag_change_changes_stable_id() {
    let root = "/repo";
    let release = key(&["compile", "app"], "/repo").with_env("FROSTBUILD_FLAGS", "--release");
    let debug = key(&["compile", "app"], "/repo").with_env("FROSTBUILD_FLAGS", "--debug");

    assert_ne!(release.stable_id(root), debug.stable_id(root));
    assert_ne!(release.digest(root), debug.digest(root));
}

#[test]
fn input_digest_change_changes_digest() {
    let root = "/repo";
    let a = key(&["cc"], "/repo").with_input("src/a.c", "aaa");
    let b = key(&["cc"], "/repo").with_input("src/a.c", "bbb");
    assert_ne!(a.digest(root), b.digest(root));
}

#[test]
fn action_key_is_invariant_to_input_insertion_order() {
    let root = "/repo";
    let mut entries = Vec::new();
    for n in 0..32 {
        entries.push((format!("p{}", n * 7 % 32), format!("{n:x}")));
    }
    let mut forward = ActionKey::new("builder", "target", &strings(&["cc"]), root, "tool");
    let mut reverse = ActionKey::new("builder", "target", &strings(&["cc"]), root, "tool");
    for (path, digest) in &entries {
        forward = forward.with_input(path, digest);
    }
    for (path, digest) in entries.iter().rev() {
        reverse = reverse.with_input(path, digest);
    }
    assert_eq!(forward.digest(root), reverse.digest(root));
}

#[test]
fn the_digest_of_a_key_is_the_hash_of_its_payload() {
    let action = key(&["cc", "-c"], "/repo/sub").with_env("A", "1");
    let payload = action.canonical_payload("/repo");
    assert_eq!(
        action.digest("/repo"),
        blake3::hash(payload.as_bytes()).to_hex().to_string()
    );
    assert_eq!(
        action.stable_id("/repo"),
        format!("{:016x}", fnv1a64(payload.as_bytes()))
    );
}

#[test]
fn fnv_matches_its_published_vectors() {
    assert_eq!(fnv1a64(b""), 0xcbf2_9ce4_8422_2325);
    assert_eq!(fnv1a64(b"a"), 0xaf63_dc4c_8601_ec8c);
    assert_eq!(fnv1a64(b"foobar"), 0x8594_4171_f739_67e8);
}

#[test]
fn bazel_reference_vector_matches_every_boundary() {
    let mut bytes = Vec::with_capacity(5 * 1024 * 1024);
    for index in 0u64..(5 * 1024 * 1024 / 32) as u64 {
        bytes.extend_from_slice(&Sha256::digest(index.to_le_bytes()));
    }
    let lengths = FastCdc::default()
        .chunks(&bytes)
        .collect()
        .iter()
        .map(|(_, length)| *length)
        .collect::<Vec<_>>();
    assert_eq!(
        lengths,
        [
            560_905, 636_753, 708_026, 322_071, 533_378, 662_298, 556_544, 573_335, 617_449,
            72_121,
        ]
    );
    assert_eq!(lengths.iter().sum::<usize>(), bytes.len());
}

#[test]
fn small_payload_is_one_chunk() {
    let bytes = vec![0; DEFAULT_MIN - 1];
    assert_eq!(
        FastCdc::default().chunks(&bytes).collect(),
        [(0, bytes.len())]
    );
}

#[test]
fn chunks_tile_the_payload_whatever_the_seed() {
    let bytes: Vec<u8> = (0..10_000u32).map(|n| (n * n % 251) as u8).collect();
    for seed in [0, 7, u64::MAX] {
        let chunker = FastCdc::new(256, 64, 1024, 2, seed).unwrap();
        let mut end = 0;
        for (offset, length) in chunker.chunks(&bytes).collect() {
            assert_eq!(offset, end);
            assert!(length <= 1024);
            end += length;
        }
        assert_eq!(end, bytes.len());
    }
}

#[test]
fn a_chunker_says_what_is_wrong_with_its_sizes() {
    let fault = |average, minimum, maximum, normalization| {
        FastCdc::new(average, minimum, maximum, normalization, 0).err()
    };
    assert!(matches!(fault(1000, 64, 4096, 2), Some(ChunkerError::AverageNotPowerOfTwo)));
    assert!(matches!(fault(1024, 0, 4096, 2), Some(ChunkerError::MinimumZero)));
    assert!(matches!(fault(1024, 2048, 4096, 2), Some(ChunkerError::MinimumExceedsAverage)));
    assert!(matches!(fault(1024, 64, 512, 2), Some(ChunkerError::AverageExceedsMaximum)));
    assert!(matches!(fault(1024, 64, 4096, 6), Some(ChunkerError::NormalizationTooLarge)));
}

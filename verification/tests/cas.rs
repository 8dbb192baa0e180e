use frostbuild::cas::{
    build_delta, check_chunk, chunk_manifest, cut, decode_manifest, encode_manifest, gc_due,
    needs_chunks, placements, positional_base, publishes, reconstruct_delta, restore, sha256, sizes_fit, stats, valid_manifest,
    verify_sha256, zstd_delta, zstd_undelta, zstd_window_log, Attempt, ChunkManifest, ChunkRef, ChunkState,
    DeltaOutcome, Gc, LocalCas, Rebuilt, StoredFile, CHUNKING_THRESHOLD, GC_INTERVAL_MS,
};
use frostbuild::hashcache::hash_file;
use sha2::{Digest, Sha256};

fn pseudo_random_bytes(length: usize) -> Vec<u8> {
    let mut state = 0x4d59_5df4_d0f3_3173u64;
    (0..length)
        .map(|_| {
            state ^= state << 13;
            state ^= state >> 7;
            state ^= state << 17;
            state as u8
        })
        .collect()
}

/// A content, its digest, its manifest and its chunks.
fn chunked() -> (Vec<u8>, String, ChunkManifest, Vec<Vec<u8>>) {
    let content = pseudo_random_bytes(8 * 1024 * 1024);
    let digest = hash_file(false, &content);
    let cuts = cut(&content);
    let deltas = cuts.iter().map(|_| None).collect();
    let manifest = chunk_manifest(&content, &digest, false, &cuts, &deltas);
    let parts = cuts
        .iter()
        .map(|&(offset, length)| content[offset..offset + length].to_vec())
        .collect();
    assert!(manifest.chunks.len() > 4);
    (content, digest, manifest, parts)
}

#[test]
fn a_stored_file_comes_back_from_its_chunks() {
    let (content, digest, manifest, parts) = chunked();
    assert!(valid_manifest(&manifest, &digest));
    assert!(manifest
        .chunks
        .iter()
        .zip(&parts)
        .all(|(chunk, part)| check_chunk(chunk, part) == ChunkState::Ready));
    assert_eq!(restore(&manifest, &digest, &parts).unwrap(), content);

    let encoded = encode_manifest(&manifest).unwrap();
    let decoded = decode_manifest(&encoded).unwrap();
    assert_eq!(restore(&decoded, &digest, &parts).unwrap(), content);
    assert!(decode_manifest(&encoded[..encoded.len() / 2]).is_none());
}

#[test]
fn chunks_can_be_put_in_place_in_any_order() {
    let (content, _, manifest, parts) = chunked();
    let places = placements(&manifest);
    assert_eq!(places[0], 0);
    assert_eq!(places[1], u64::from(manifest.chunks[0].length));
    let mut out = vec![0u8; content.len()];
    for (&place, part) in places.iter().zip(&parts).rev() {
        let from = place as usize;
        out[from..from + part.len()].copy_from_slice(part);
    }
    assert_eq!(out, content);
}

#[test]
fn only_the_object_itself_is_published() {
    let digest = hash_file(true, b"bytes");
    assert!(publishes(&digest, true, b"bytes"));
    assert!(!publishes(&digest, false, b"bytes"));
    assert!(!publishes(&digest, true, b"other"));
    assert_eq!(Attempt::Whole.after(true), Attempt::Done { published: true });
    assert_eq!(Attempt::Whole.after(false), Attempt::Chunks);
    assert_eq!(Attempt::Chunks.after(false), Attempt::Done { published: false });
    assert_eq!(Attempt::Chunks.after(true), Attempt::Done { published: true });
    assert!(sizes_fit(&vec![stored(0, u64::MAX, "a")]));
    assert!(!sizes_fit(&vec![stored(0, u64::MAX, "a"), stored(0, 1, "b")]));
}

#[test]
fn damaged_chunks_restore_nothing() {
    let (_, digest, manifest, parts) = chunked();

    let mut flipped = parts.clone();
    let middle = flipped[0].len() / 2;
    flipped[0][middle] ^= 1;
    assert_eq!(check_chunk(&manifest.chunks[0], &flipped[0]), ChunkState::Corrupt);
    assert!(restore(&manifest, &digest, &flipped).is_none());

    let mut wrong = parts.clone();
    wrong[0] = parts[1].clone();
    assert!(restore(&manifest, &digest, &wrong).is_none());

    let mut partial = parts.clone();
    partial[0].truncate(middle);
    assert!(restore(&manifest, &digest, &partial).is_none());

    let (_, digest, mut reordered, mut parts) = chunked();
    reordered.chunks.swap(0, 1);
    parts.swap(0, 1);
    assert!(restore(&reordered, &digest, &parts).is_none());

    let (_, digest, mut mismatched, parts) = chunked();
    mismatched.average /= 2;
    assert!(!valid_manifest(&mismatched, &digest));
    assert!(restore(&mismatched, &digest, &parts).is_none());
}

#[test]
fn a_one_byte_change_keeps_most_chunks_and_the_rest_is_a_delta() {
    let (content, _, first, first_parts) = chunked();
    let mut changed = content.clone();
    let middle = changed.len() / 2;
    changed[middle] ^= 1;
    let cuts = cut(&changed);
    let names: Vec<String> = cuts
        .iter()
        .map(|&(offset, length)| sha256(&changed[offset..offset + length]))
        .collect();
    let kept = names
        .iter()
        .filter(|name| first.chunks.iter().any(|chunk| chunk.sha256 == **name))
        .count();
    assert!(kept * 4 >= names.len() * 3, "{kept}/{}", names.len());

    let at = names
        .iter()
        .position(|name| first.chunks.iter().all(|chunk| chunk.sha256 != *name))
        .unwrap();
    let (offset, length) = cuts[at];
    let target = &changed[offset..offset + length];
    let base = positional_base(&first, offset as u64, (offset + length) as u64).unwrap();
    let DeltaOutcome::Delta(delta, patch) = build_delta(
        &first.chunks[base].sha256,
        &first_parts[base],
        &names[at],
        target,
    ) else {
        panic!("a one-byte residual has a delta")
    };
    assert_eq!(delta.patch_sha256, sha256(&patch));
    let chunk = ChunkRef {
        sha256: names[at].clone(),
        length: length as u32,
        delta: Some(delta),
    };
    let base_bytes = Some(first_parts[base].clone());
    assert!(matches!(
        reconstruct_delta(&chunk, &base_bytes, &Some(patch.clone())),
        Rebuilt::Chunk(bytes) if bytes == target
    ));
    let mut flipped = patch.clone();
    let half = flipped.len() / 2;
    flipped[half] ^= 1;
    assert!(matches!(
        reconstruct_delta(&chunk, &base_bytes, &Some(flipped)),
        Rebuilt::BadPatch
    ));
    assert!(matches!(
        reconstruct_delta(&chunk, &base_bytes, &Some(patch[..half].to_vec())),
        Rebuilt::Nothing
    ));
    assert!(matches!(
        reconstruct_delta(&chunk, &None, &Some(patch.clone())),
        Rebuilt::Nothing
    ));
    assert!(matches!(
        reconstruct_delta(&chunk, &Some(target.to_vec()), &Some(patch)),
        Rebuilt::BadBase
    ));
}

#[test]
fn deltas_are_undone() {
    let base = pseudo_random_bytes(64 * 1024);
    let mut target = base.clone();
    target[1000] ^= 0xff;
    let patch = zstd_delta(&base, &target).unwrap();
    assert!(patch.len() < target.len() / 4, "{}", patch.len());
    assert_eq!(zstd_undelta(&base, &patch, target.len()).unwrap(), target);
    assert!(zstd_undelta(&base, b"not a frame", 10).is_none());
    assert!(zstd_window_log(64 * 1024) >= 16);
}

#[test]
fn names_of_bytes_are_their_sha256() {
    assert_eq!(
        sha256(b"abc"),
        "ba7816bf8f01cfea414140de5dae2223b00361a396177a9cb410ff61f20015ad"
    );
    let name: String = Sha256::digest(b"frost")
        .iter()
        .map(|byte| format!("{byte:02x}"))
        .collect();
    assert_eq!(sha256(b"frost"), name);
    assert!(verify_sha256(b"frost", &name));
    assert!(!verify_sha256(b"thaw", &name));
}

#[test]
fn objects_are_sharded_by_their_digest() {
    let cas = LocalCas::new("/ws", 1024).with_parallel_chunks(true);
    assert!(cas.parallel_chunks);
    assert_eq!(cas.object("abcdef"), "/ws/.frost/cas/objects/ab/abcdef");
    assert_ne!(cas.chunk("abcdef"), cas.object("abcdef"));
    assert_ne!(cas.manifest("abcdef"), cas.chunk("abcdef"));
    assert_ne!(cas.delta("abcdef", "1"), cas.delta("abcdef", "2"));
    assert_ne!(cas.artifact_head("/ws/a"), cas.artifact_head("/ws/b"));
    assert!(needs_chunks(CHUNKING_THRESHOLD + 1, false));
    assert!(!needs_chunks(CHUNKING_THRESHOLD + 1, true));
    assert!(!needs_chunks(CHUNKING_THRESHOLD, false));
}

fn stored(mtime_ns: i128, size: u64, name: &str) -> StoredFile {
    StoredFile {
        mtime_ns: Some(mtime_ns),
        size,
        path: vec![name.to_string()],
    }
}

#[test]
fn the_oldest_files_go_until_the_rest_fits() {
    let mut gc = Gc::new(
        vec![stored(3, 10, "c"), stored(1, 10, "a"), stored(2, 10, "b")],
        15,
    );
    assert_eq!(gc.candidate(), Some(1));
    gc.tried(true);
    assert_eq!(gc.candidate(), Some(2));
    gc.tried(true);
    assert_eq!(gc.candidate(), None);
    assert_eq!(gc.removed(), 20);
}

#[test]
fn a_file_that_cannot_go_is_passed_over() {
    let mut gc = Gc::new(vec![stored(1, 10, "a"), stored(2, 10, "b")], 10);
    assert_eq!(gc.candidate(), Some(0));
    gc.tried(false);
    assert_eq!(gc.candidate(), Some(1));
    gc.tried(true);
    assert_eq!(gc.candidate(), None);
    assert_eq!(gc.removed(), 10);
}

#[test]
fn cleaning_is_due_once_in_an_interval() {
    assert!(gc_due(10, true, true, Some(0)));
    assert!(gc_due(10, true, false, None));
    assert!(gc_due(10, true, false, Some(GC_INTERVAL_MS)));
    assert!(!gc_due(10, true, false, Some(GC_INTERVAL_MS - 1)));
    assert!(!gc_due(0, true, true, None));
    assert!(!gc_due(10, false, true, None));
}

#[test]
fn reuse_is_counted_over_manifests() {
    let (_, digest, manifest, _) = chunked();
    let twice = decode_manifest(&encode_manifest(&manifest).unwrap()).unwrap();
    assert!(valid_manifest(&twice, &digest));
    let total = manifest.total_bytes;
    let count = manifest.chunks.len() as u64;
    let seen = stats((1, 5), (count, total), (0, 0), &vec![manifest, twice]);
    assert_eq!(seen.object_count, 1);
    assert_eq!(seen.object_bytes, 5);
    assert_eq!(seen.manifest_count, 2);
    assert_eq!(seen.logical_chunk_count, 2 * count);
    assert_eq!(seen.logical_chunk_bytes, 2 * total);
    assert_eq!(seen.reused_chunk_count, count);
    assert_eq!(seen.reused_chunk_bytes, total);
}

use cargo_mend::cache::CacheBuildKind;
use cargo_mend::cache::cache_filename_for;
use cargo_mend::cache::cache_filename_from_fingerprint;

#[test]
fn cache_filename_for_separates_library_and_test_builds() {
    let package_root = "/package";
    let crate_root = "/package/src/lib.rs";

    assert_ne!(
        cache_filename_for(package_root, crate_root, CacheBuildKind::Library),
        cache_filename_for(package_root, crate_root, CacheBuildKind::Test)
    );
}

#[test]
fn cache_filename_is_stable_and_fixed_width() {
    let first = cache_filename_for("/package", "/package/src/lib.rs", CacheBuildKind::Library);
    let second = cache_filename_for("/package", "/package/src/lib.rs", CacheBuildKind::Library);
    assert_eq!(first, second);
    assert_eq!(first.len(), 21);
    assert!(first.ends_with(".json"));
    assert_ne!(
        first,
        cache_filename_for("/other", "/package/src/lib.rs", CacheBuildKind::Library)
    );
}

#[test]
fn fingerprint_renders_as_sixteen_lowercase_hex_digits() {
    assert_eq!(cache_filename_from_fingerprint(0), "0000000000000000.json");
    assert_eq!(cache_filename_from_fingerprint(0xab), "00000000000000ab.json");
    assert_eq!(
        cache_filename_from_fingerprint(u64::MAX),
        "ffffffffffffffff.json"
    );
    assert_eq!(
        cache_filename_from_fingerprint(0x0123_4567_89ab_cdef),
        "0123456789abcdef.json"
    );
}

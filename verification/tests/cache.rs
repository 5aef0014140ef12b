use shaat::cache::{BTreeCache, FileProbe, HashCache};
use shaat::node::Node;
use shaat::path::path_key_of;
use std::path::PathBuf;
use std::cell::Cell;

fn content(s: &str) -> Result<Vec<u8>, String> {
    Ok(s.as_bytes().to_vec())
}

#[test]
fn default_node_is_unset() {
    let n = Node::default();
    assert_eq!(n.last_update, 0);
    assert_eq!(n.content, Err("Still unset".to_string()));
}

#[test]
fn must_update_compares_times_and_passes_errors() {
    let n = Node { last_update: 10, content: content("x") };
    assert_eq!(n.must_update(&Ok(11)), Ok(true));
    assert_eq!(n.must_update(&Ok(10)), Ok(false));
    assert_eq!(n.must_update(&Ok(-3)), Ok(false));
    assert_eq!(n.must_update(&Err("no metadata".to_string())), Err("no metadata".to_string()));
}

#[test]
fn update_reads_only_newer_files() {
    let mut n = Node { last_update: 10, content: content("old") };
    n.update(Ok(5), || content("never"));
    assert_eq!(n.content, content("old"));
    assert_eq!(n.last_update, 10);
    n.update(Ok(20), || content("new"));
    assert_eq!(n.content, content("new"));
    assert_eq!(n.last_update, 20);
    assert_eq!(n.must_update(&Ok(20)), Ok(false));
    n.update(Err("gone".to_string()), || content("never"));
    assert_eq!(n.content, Err("gone".to_string()));
    assert_eq!(n.last_update, 20);
}

#[test]
fn second_lookup_with_same_time_does_not_read() {
    let reads = Cell::new(0);
    let mut c = HashCache::default();
    let first = c.get("a.html", FileProbe::Modified(100), || {
        reads.set(reads.get() + 1);
        content("page")
    });
    assert_eq!(first, content("page"));
    let second = c.get("a.html", FileProbe::Modified(100), || {
        reads.set(reads.get() + 1);
        content("other")
    });
    assert_eq!(second, content("page"));
    assert_eq!(reads.get(), 1);
}

#[test]
fn modified_file_is_read_again() {
    let mut c = HashCache::default();
    c.get("a", FileProbe::Modified(1), || content("v1"));
    assert_eq!(c.get("a", FileProbe::Modified(2), || content("v2")), content("v2"));
    assert_eq!(c.get("a", FileProbe::Modified(1), || content("v3")), content("v2"));
}

#[test]
fn open_failure_keeps_cached_entry() {
    let mut c = HashCache::default();
    c.get("a", FileProbe::Modified(1), || content("v1"));
    assert_eq!(c.get("a", FileProbe::OpenFailed("denied".to_string()), || content("x")), Err("denied".to_string()));
    assert_eq!(c.get("a", FileProbe::Modified(1), || content("x")), content("v1"));
}

#[test]
fn open_failure_of_new_path_is_cached_as_error() {
    let mut c = HashCache::default();
    assert_eq!(c.get("b", FileProbe::OpenFailed("missing".to_string()), || content("x")), Err("missing".to_string()));
    assert_eq!(c.get("b", FileProbe::Modified(5), || content("now")), content("now"));
}

#[test]
fn metadata_failure_becomes_content() {
    let mut c = HashCache::default();
    c.get("a", FileProbe::Modified(3), || content("v1"));
    assert_eq!(c.get("a", FileProbe::MetadataFailed("meta".to_string()), || content("x")), Err("meta".to_string()));
    assert_eq!(c.get("a", FileProbe::Modified(3), || content("x")), Err("meta".to_string()));
}

#[test]
fn file_from_before_the_epoch_stays_unset() {
    let mut c = HashCache::default();
    assert_eq!(c.get("old", FileProbe::Modified(0), || content("x")), Err("Still unset".to_string()));
    assert_eq!(c.get("old", FileProbe::Modified(-7), || content("x")), Err("Still unset".to_string()));
}

#[test]
fn lookups_keep_other_paths() {
    let mut c = HashCache::default();
    c.get("a", FileProbe::Modified(1), || content("a1"));
    c.get("b", FileProbe::Modified(1), || content("b1"));
    c.get("b", FileProbe::Modified(2), || content("b2"));
    assert_eq!(c.get("a", FileProbe::Modified(1), || content("zz")), content("a1"));
}

#[test]
fn spellings_of_one_path_share_an_entry() {
    let mut c = HashCache::default();
    assert_eq!(c.get("static//a.html", FileProbe::Modified(1), || content("v1")), content("v1"));
    assert_eq!(c.get("static/./a.html/", FileProbe::Modified(1), || content("v2")), content("v1"));
    assert_eq!(c.get("./static/a.html", FileProbe::Modified(1), || content("v3")), content("v3"));
}

#[test]
fn btree_cache_behaves_as_hash_cache() {
    let mut c = BTreeCache::default();
    assert_eq!(c.get("/srv/a", FileProbe::Modified(4), || content("v1")), content("v1"));
    assert_eq!(c.get("//srv/a", FileProbe::Modified(4), || content("v2")), content("v1"));
    assert_eq!(c.get("/srv/a", FileProbe::OpenFailed("gone".to_string()), || content("v3")), Err("gone".to_string()));
    assert_eq!(c.get("/srv/a", FileProbe::Modified(9), || content("v4")), content("v4"));
    assert_eq!(c.get("/srv/b", FileProbe::MetadataFailed("meta".to_string()), || content("v5")), Err("meta".to_string()));
}

#[test]
fn path_keys_agree_with_std_path_equality() {
    let paths = [
        "", ".", "./", "a", "./a", "a/", "a//b", "a/./b", "a/b/.", "a/b", "/", "//", "/a", "//a",
        "/./a", "/a/", "..", "../a", "a/../b", "a/b/..", ".a", "a/.b", "./.", "././a", "a/.", "/.",
    ];
    for x in paths.iter() {
        for y in paths.iter() {
            assert_eq!(
                path_key_of(x) == path_key_of(y),
                PathBuf::from(x) == PathBuf::from(y),
                "paths {:?} and {:?}",
                x,
                y
            );
        }
    }
    assert_eq!(path_key_of("a//./b/"), "a/b");
    assert_eq!(path_key_of("./x/"), "./x");
    assert_eq!(path_key_of("//srv///s"), "/srv/s");
}

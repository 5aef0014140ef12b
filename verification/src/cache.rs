use vstd::prelude::*;
use vstd::hash_map::StringHashMap;
use crate::node::{Content, Node, NodeView, content_view, copy_content, unset_node};
use crate::path::{path_key, path_key_of};

verus! {

/// What opening a file and asking it for its modification time gave.
pub enum FileProbe {
    /// The file could not be opened; the error text.
    OpenFailed(String),
    /// The file opened, but its metadata or modification time could not be read; the error text.
    MetadataFailed(String),
    /// The file opened and was last modified at this time (nanoseconds since the Unix epoch).
    Modified(i128),
}

/// An optional node as a mathematical value.
pub open spec fn opt_node_view(n: Option<Node>) -> Option<NodeView> {
    match n {
        Some(node) => Some(node@),
        None => None,
    }
}

/// The entry that a lookup starts from: the cached one, or an unset node.
pub open spec fn base_of(cached: Option<NodeView>) -> NodeView {
    match cached {
        Some(n) => n,
        None => unset_node(),
    }
}

/// Whether a lookup that starts from `cached` reads the file: only when the file opened
/// and was modified after the time of that entry.
pub open spec fn reads_file_from(cached: Option<NodeView>, probe: FileProbe) -> bool {
    match probe {
        FileProbe::Modified(m) => m > base_of(cached).last_update,
        _ => false,
    }
}

/// What a lookup that starts from `cached` leaves as the entry of its path (`None`: the
/// cached entry stays as it is), and the content it answers, when reading the file (if the
/// lookup reads it) gives `fresh`.
pub open spec fn entry_outcome(
    cached: Option<NodeView>,
    probe: FileProbe,
    fresh: Result<Seq<u8>, Seq<char>>,
) -> (Option<NodeView>, Result<Seq<u8>, Seq<char>>) {
    let base = base_of(cached);
    match probe {
        FileProbe::OpenFailed(e) => if cached is Some {
            (None, Err(e@))
        } else {
            (Some(NodeView { last_update: 0, content: Err(e@) }), Err(e@))
        },
        FileProbe::MetadataFailed(e) => (
            Some(NodeView { last_update: base.last_update, content: Err(e@) }),
            Err(e@),
        ),
        FileProbe::Modified(m) => if m > base.last_update {
            (Some(NodeView { last_update: m, content: fresh }), fresh)
        } else {
            (Some(base), base.content)
        },
    }
}

/// The entry cached under `key`, if any.
pub open spec fn cached_at(cache: Map<Seq<char>, NodeView>, key: Seq<char>) -> Option<NodeView> {
    if cache.contains_key(key) {
        Some(cache[key])
    } else {
        None
    }
}

/// Whether a lookup under `key` reads the file.
pub open spec fn reads_file(
    cache: Map<Seq<char>, NodeView>,
    key: Seq<char>,
    probe: FileProbe,
) -> bool {
    reads_file_from(cached_at(cache, key), probe)
}

/// The cache after a lookup under `key`, and the content the lookup answers, when reading
/// the file (if the lookup reads it) gives `fresh`.
pub open spec fn cache_outcome(
    cache: Map<Seq<char>, NodeView>,
    key: Seq<char>,
    probe: FileProbe,
    fresh: Result<Seq<u8>, Seq<char>>,
) -> (Map<Seq<char>, NodeView>, Result<Seq<u8>, Seq<char>>) {
    let (entry, answer) = entry_outcome(cached_at(cache, key), probe, fresh);
    match entry {
        Some(n) => (cache.insert(key, n), answer),
        None => (cache, answer),
    }
}

/// The decisions of one lookup: from the cached entry (if any) and what the probe of the
/// file gave, the entry to keep (`None`: leave the cached one) and the content to answer;
/// the file is read, once, only when it was modified after the entry's time.
fn look_up<F>(cached: Option<Node>, probe: FileProbe, read_content: F) -> (r: (Option<Node>, Content)) where
    F: FnOnce() -> Content,
    requires
        call_requires(read_content, ()),
    ensures
        reads_file_from(opt_node_view(cached), probe) ==> exists|c: Content|
            call_ensures(read_content, (), c) && entry_outcome(
                opt_node_view(cached),
                probe,
                content_view(c),
            ) == (opt_node_view(r.0), content_view(r.1)),
        !reads_file_from(opt_node_view(cached), probe) ==> entry_outcome(
            opt_node_view(cached),
            probe,
            Err(Seq::empty()),
        ) == (opt_node_view(r.0), content_view(r.1)),
{
    let ghost cv = opt_node_view(cached);
    match cached {
        Some(mut node) => {
            let modified: Result<i128, String> = match probe {
                FileProbe::OpenFailed(e) => {
                    return (None, Err(e));
                },
                FileProbe::MetadataFailed(e) => Err(e),
                FileProbe::Modified(m) => Ok(m),
            };
            let must_update = match node.must_update(&modified) {
                Ok(b) => b,
                Err(_) => true,
            };
            if must_update {
                node.update(modified, read_content);
                let content = copy_content(&node.content);
                proof {
                    if reads_file_from(cv, probe) {
                        assert(call_ensures(read_content, (), node.content));
                        assert(entry_outcome(cv, probe, content_view(node.content)) == (
                            Some(node@),
                            content_view(content),
                        ));
                    }
                }
                (Some(node), content)
            } else {
                let content = copy_content(&node.content);
                (Some(node), content)
            }
        },
        None => {
            let mut node = Node::default();
            match probe {
                FileProbe::OpenFailed(e) => {
                    node.content = Err(e);
                },
                FileProbe::MetadataFailed(e) => {
                    node.update(Err(e), read_content);
                },
                FileProbe::Modified(m) => {
                    node.update(Ok(m), read_content);
                },
            }
            let content = copy_content(&node.content);
            proof {
                if reads_file_from(cv, probe) {
                    assert(call_ensures(read_content, (), node.content));
                    assert(entry_outcome(cv, probe, content_view(node.content)) == (
                        Some(node@),
                        content_view(content),
                    ));
                }
            }
            (Some(node), content)
        },
    }
}

/// A cache of files, each entry kept under the normal form of its path until the file is
/// modified again.
pub struct HashCache {
    cache: StringHashMap<Node>,
}

impl View for HashCache {
    type V = Map<Seq<char>, NodeView>;

    closed spec fn view(&self) -> Map<Seq<char>, NodeView> {
        self.cache@.map_values(|n: Node| n@)
    }
}

/// A cache of files like `HashCache`, with its entries in a map under the normal form of
/// their paths. The cache never walks its entries, so their order plays no part in what
/// it does.
pub struct BTreeCache {
    cache: StringHashMap<Node>,
}

impl View for BTreeCache {
    type V = Map<Seq<char>, NodeView>;

    closed spec fn view(&self) -> Map<Seq<char>, NodeView> {
        self.cache@.map_values(|n: Node| n@)
    }
}

/// One lookup in a map of entries: the entry kept under the normal form of `path`, brought
/// up to date.
fn get_in<F>(cache: &mut StringHashMap<Node>, path: &str, probe: FileProbe, read_content: F) -> (r:
    Content) where F: FnOnce() -> Content,
    requires
        call_requires(read_content, ()),
    ensures
        ({
            let before = old(cache)@.map_values(|n: Node| n@);
            let after = final(cache)@.map_values(|n: Node| n@);
            let key = path_key(path@);
            &&& reads_file(before, key, probe) ==> exists|c: Content|
                call_ensures(read_content, (), c) && cache_outcome(
                    before,
                    key,
                    probe,
                    content_view(c),
                ) == (after, content_view(r))
            &&& !reads_file(before, key, probe) ==> cache_outcome(
                before,
                key,
                probe,
                Err(Seq::empty()),
            ) == (after, content_view(r))
        }),
{
    let ghost before = cache@.map_values(|n: Node| n@);
    let key = path_key_of(path);
    let cached: Option<Node> = match cache.get(key.as_str()) {
        Some(n) => Some(n.copy()),
        None => None,
    };
    assert(opt_node_view(cached) == cached_at(before, key@));
    let (entry, content) = look_up(cached, probe, read_content);
    match entry {
        Some(node) => {
            let ghost new_node = node@;
            cache.insert(key, node);
            assert(cache@.map_values(|n: Node| n@) =~= before.insert(path_key(path@), new_node));
        },
        None => {},
    }
    content
}

impl HashCache {
    /// The content of the file at `path`: the cached one while the file has not been
    /// modified since, else what `read_content` reads, which then replaces the entry.
    /// A file that fails to open answers that error and leaves a cached entry alone.
    /// Spellings of one path share one entry.
    pub fn get<F>(&mut self, path: &str, probe: FileProbe, read_content: F) -> (r: Content) where
        F: FnOnce() -> Content,
        requires
            call_requires(read_content, ()),
        ensures
            reads_file(old(self)@, path_key(path@), probe) ==> exists|c: Content|
                call_ensures(read_content, (), c) && cache_outcome(
                    old(self)@,
                    path_key(path@),
                    probe,
                    content_view(c),
                ) == (final(self)@, content_view(r)),
            !reads_file(old(self)@, path_key(path@), probe) ==> cache_outcome(
                old(self)@,
                path_key(path@),
                probe,
                Err(Seq::empty()),
            ) == (final(self)@, content_view(r)),
    {
        get_in(&mut self.cache, path, probe, read_content)
    }
}

impl Default for HashCache {
    fn default() -> (r: HashCache)
        ensures
            r@ == Map::<Seq<char>, NodeView>::empty(),
    {
        let r = HashCache { cache: StringHashMap::new() };
        assert(r@ =~= Map::<Seq<char>, NodeView>::empty());
        r
    }
}

impl BTreeCache {
    /// The content of the file at `path`, as `HashCache::get` gives it.
    pub fn get<F>(&mut self, path: &str, probe: FileProbe, read_content: F) -> (r: Content) where
        F: FnOnce() -> Content,
        requires
            call_requires(read_content, ()),
        ensures
            reads_file(old(self)@, path_key(path@), probe) ==> exists|c: Content|
                call_ensures(read_content, (), c) && cache_outcome(
                    old(self)@,
                    path_key(path@),
                    probe,
                    content_view(c),
                ) == (final(self)@, content_view(r)),
            !reads_file(old(self)@, path_key(path@), probe) ==> cache_outcome(
                old(self)@,
                path_key(path@),
                probe,
                Err(Seq::empty()),
            ) == (final(self)@, content_view(r)),
    {
        get_in(&mut self.cache, path, probe, read_content)
    }
}

impl Default for BTreeCache {
    fn default() -> (r: BTreeCache)
        ensures
            r@ == Map::<Seq<char>, NodeView>::empty(),
    {
        let r = BTreeCache { cache: StringHashMap::new() };
        assert(r@ =~= Map::<Seq<char>, NodeView>::empty());
        r
    }
}

} // verus!

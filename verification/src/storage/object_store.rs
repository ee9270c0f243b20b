//! An object store in memory.

use bytes::Bytes;
use vstd::prelude::*;
use vstd::string::StringExecFns;

use crate::common::shared_bytes::{bytes_clone, bytes_content, bytes_len, bytes_slice};
use crate::common::string_map::{has_name, index_of_name, lemma_named, names_distinct, StringMap};
use crate::hummock::key::{
    bytes_less, bytes_lt, lemma_bytes_lt_irreflexive, lemma_bytes_lt_transitive,
    lemma_bytes_trichotomy,
};

verus! {

/// Part of an object.
#[derive(Clone, Copy, Debug, PartialEq, Eq, Structural)]
pub struct BlockLocation {
    pub offset: usize,
    pub size: usize,
}

/// What is known of an object. The time is given in seconds and nanoseconds.
#[derive(Debug)]
pub struct ObjectMetadata {
    pub key: String,
    pub last_modified_secs: u64,
    pub last_modified_nanos: u32,
    pub total_size: usize,
}

impl ObjectMetadata {
    /// A copy of the metadata.
    pub fn copy(&self) -> (r: ObjectMetadata)
        ensures
            r == *self,
    {
        ObjectMetadata {
            key: self.key.clone(),
            last_modified_secs: self.last_modified_secs,
            last_modified_nanos: self.last_modified_nanos,
            total_size: self.total_size,
        }
    }
}

/// Why a request to the store failed.
#[derive(Debug)]
pub enum ObjectError {
    UploadEmptyObject,
    BadBlock,
    NoObject(String),
}

/// The text of an error.
pub open spec fn error_text(e: ObjectError) -> Seq<char> {
    match e {
        ObjectError::UploadEmptyObject => "upload empty object"@,
        ObjectError::BadBlock => "bad block offset and size"@,
        ObjectError::NoObject(path) => "no object at path '"@ + path@ + "'"@,
    }
}

impl ObjectError {
    /// The text of the error.
    pub fn message(&self) -> (r: String)
        ensures
            r@ == error_text(*self),
    {
        match self {
            ObjectError::UploadEmptyObject => "upload empty object".to_owned(),
            ObjectError::BadBlock => "bad block offset and size".to_owned(),
            ObjectError::NoObject(path) => {
                let mut s: String = "no object at path '".to_owned();
                s.append(path.as_str());
                s.append("'");
                s
            },
        }
    }
}

/// The block lies within `len` bytes.
pub open spec fn block_fits(block: BlockLocation, len: nat) -> bool {
    block.offset + block.size <= len
}

/// The part of an object that a block names.
pub fn find_block(obj: &Bytes, block: BlockLocation) -> (r: Result<Bytes, ObjectError>)
    requires
        block.offset + block.size <= usize::MAX,
    ensures
        match r {
            Ok(part) => block_fits(block, bytes_content(*obj).len()) && bytes_content(part) == bytes_content(
                *obj,
            ).subrange(block.offset as int, block.offset + block.size),
            Err(e) => !block_fits(block, bytes_content(*obj).len()) && e == ObjectError::BadBlock,
        },
{
    if block.offset + block.size > bytes_len(obj) {
        Err(ObjectError::BadBlock)
    } else {
        Ok(bytes_slice(obj, block.offset, block.offset + block.size))
    }
}

/// In-memory object storage, useful for testing.
pub struct InMemObjectStore {
    objects: StringMap<(ObjectMetadata, Bytes)>,
}

/// An object: its metadata and its bytes.
pub struct ObjectView {
    pub metadata: ObjectMetadata,
    pub content: Seq<u8>,
}

/// `prefix` starts the path `path`.
pub open spec fn path_has_prefix(path: Seq<char>, prefix: Seq<char>) -> bool {
    let (p, q) = (vstd::utf8::encode_utf8(path), vstd::utf8::encode_utf8(prefix));
    q.len() <= p.len() && p.subrange(0, q.len() as int) == q
}

/// The path `a` comes strictly before the path `b`.
pub open spec fn path_lt(a: Seq<char>, b: Seq<char>) -> bool {
    bytes_lt(vstd::utf8::encode_utf8(a), vstd::utf8::encode_utf8(b))
}

/// An object was stored under the path, and the others are as they were.
pub open spec fn is_uploaded(
    before: Map<Seq<char>, ObjectView>,
    after: Map<Seq<char>, ObjectView>,
    path: Seq<char>,
    content: Seq<u8>,
    now_secs: u64,
    now_nanos: u32,
) -> bool {
    &&& after.dom() == before.dom().insert(path)
    &&& after[path].content == content
    &&& after[path].metadata.key@ == path
    &&& after[path].metadata.last_modified_secs == now_secs
    &&& after[path].metadata.last_modified_nanos == now_nanos
    &&& after[path].metadata.total_size == content.len()
    &&& forall|p: Seq<char>| p != path && before.contains_key(p) ==> #[trigger] after[p] == before[p]
}

/// What a read of one block gives.
pub open spec fn read_result(
    objects: Map<Seq<char>, ObjectView>,
    path: Seq<char>,
    block: Option<BlockLocation>,
    r: Result<Bytes, ObjectError>,
) -> bool {
    if !objects.contains_key(path) {
        r matches Err(ObjectError::NoObject(p)) && p@ == path
    } else {
        let content = objects[path].content;
        match block {
            None => r matches Ok(b) && bytes_content(b) == content,
            Some(loc) => if block_fits(loc, content.len()) {
                r matches Ok(b) && bytes_content(b) == content.subrange(
                    loc.offset as int,
                    loc.offset + loc.size,
                )
            } else {
                r matches Err(ObjectError::BadBlock)
            },
        }
    }
}

/// A list of metadata by rising path that holds all paths with the prefix, and
/// no others.
pub open spec fn is_listing(objects: Map<Seq<char>, ObjectView>, prefix: Seq<char>, r: Seq<ObjectMetadata>) -> bool {
    &&& forall|i: int|
        #![trigger r[i]]
        0 <= i < r.len() ==> objects.contains_key(r[i].key@) && path_has_prefix(r[i].key@, prefix)
            && objects[r[i].key@].metadata == r[i]
    &&& forall|path: Seq<char>| #[trigger]
        objects.contains_key(path) && path_has_prefix(path, prefix) ==> exists|i: int|
            0 <= i < r.len() && (#[trigger] r[i]).key@ == path
    &&& forall|i: int, j: int|
        0 <= i < j < r.len() ==> path_lt((#[trigger] r[i]).key@, (#[trigger] r[j]).key@)
}

impl View for InMemObjectStore {
    type V = Map<Seq<char>, ObjectView>;

    closed spec fn view(&self) -> Map<Seq<char>, ObjectView> {
        self.objects@.map_values(
            |o: (ObjectMetadata, Bytes)| ObjectView { metadata: o.0, content: bytes_content(o.1) },
        )
    }
}

/// Whether `prefix` starts `path`.
fn has_prefix(path: &str, prefix: &str) -> (r: bool)
    ensures
        r == path_has_prefix(path@, prefix@),
{
    let p = path.as_bytes();
    let q = prefix.as_bytes();
    if q.len() > p.len() {
        return false;
    }
    let mut i: usize = 0;
    while i < q.len()
        invariant
            i <= q@.len() <= p@.len(),
            p@ == vstd::utf8::encode_utf8(path@),
            q@ == vstd::utf8::encode_utf8(prefix@),
            forall|j: int| 0 <= j < i ==> p@[j] == q@[j],
        decreases q@.len() - i,
    {
        if p[i] != q[i] {
            proof {
                assert(p@.subrange(0, q@.len() as int)[i as int] != q@[i as int]);
            }
            return false;
        }
        i = i + 1;
    }
    proof {
        assert(p@.subrange(0, q@.len() as int) =~= q@);
    }
    true
}

/// Puts `m` into a list by rising path.
fn insert_sorted(list: &mut Vec<ObjectMetadata>, m: ObjectMetadata)
    requires
        forall|i: int, j: int|
            0 <= i < j < old(list)@.len() ==> !path_lt((#[trigger] old(list)@[j]).key@, (#[trigger] old(list)@[i]).key@),
    ensures
        exists|p: int| 0 <= p <= old(list)@.len() && final(list)@ == #[trigger] old(list)@.insert(p, m),
        forall|i: int, j: int|
            0 <= i < j < final(list)@.len() ==> !path_lt(
                (#[trigger] final(list)@[j]).key@,
                (#[trigger] final(list)@[i]).key@,
            ),
{
    let ghost before = list@;
    let ghost key = m.key@;
    let mut p: usize = list.len();
    while p > 0 && bytes_less(m.key.as_str().as_bytes(), list[p - 1].key.as_str().as_bytes())
        invariant
            p <= list@.len(),
            list@ == before,
            key == m.key@,
            forall|j: int| p <= j < before.len() ==> path_lt(key, (#[trigger] before[j]).key@),
        decreases p,
    {
        p = p - 1;
    }
    list.insert(p, m);
    proof {
        let after = list@;
        assert(after == before.insert(p as int, m));
        assert forall|i: int, j: int| 0 <= i < j < after.len() implies !path_lt(
            (#[trigger] after[j]).key@,
            (#[trigger] after[i]).key@,
        ) by {
            let ej = |s: Seq<char>| vstd::utf8::encode_utf8(s);
            if j == p {
                assert(after[i] == before[i]);
                let last = before[p - 1].key@;
                assert(!path_lt(key, last));
                if i < p - 1 && path_lt(key, before[i].key@) {
                    lemma_bytes_trichotomy(ej(last), ej(before[i].key@));
                    lemma_bytes_trichotomy(ej(key), ej(last));
                    assert(!path_lt(last, before[i].key@));
                    if ej(last) != ej(before[i].key@) {
                        lemma_bytes_lt_transitive(ej(key), ej(before[i].key@), ej(last));
                    }
                }
            } else if i == p {
                assert(after[j] == before[j - 1]);
                if path_lt(after[j].key@, key) {
                    lemma_bytes_lt_transitive(ej(key), ej(after[j].key@), ej(key));
                    lemma_bytes_lt_irreflexive(ej(key), 0);
                }
            } else {
                let bi = if i < p {
                    i
                } else {
                    i - 1
                };
                let bj = if j < p {
                    j
                } else {
                    j - 1
                };
                assert(after[i] == before[bi] && after[j] == before[bj]);
            }
        }
    }
}

impl InMemObjectStore {
    /// The paths can be told apart, and each object's metadata holds its path and its
    /// size.
    pub closed spec fn wf(&self) -> bool {
        &&& self.objects.wf()
        &&& forall|p: Seq<char>| #[trigger]
            self.objects@.contains_key(p) ==> self.objects@[p].0.key@ == p && self.objects@[p].0.total_size
                == bytes_content(self.objects@[p].1).len()
    }

    /// An empty store.
    pub fn new() -> (r: InMemObjectStore)
        ensures
            r.wf(),
            r@ == Map::<Seq<char>, ObjectView>::empty(),
    {
        let r = InMemObjectStore { objects: StringMap::new() };
        proof {
            assert(r@ =~= Map::<Seq<char>, ObjectView>::empty());
        }
        r
    }

    /// Stores an object. An empty object is refused.
    pub fn upload(&mut self, path: &str, obj: Bytes, now_secs: u64, now_nanos: u32) -> (r: Result<(), ObjectError>)
        requires
            old(self).wf(),
        ensures
            final(self).wf(),
            if bytes_content(obj).len() == 0 {
                r == Err::<(), ObjectError>(ObjectError::UploadEmptyObject) && final(self)@ == old(self)@
            } else {
                &&& r is Ok
                &&& is_uploaded(old(self)@, final(self)@, path@, bytes_content(obj), now_secs, now_nanos)
            },
    {
        let size: usize = bytes_len(&obj);
        if size == 0 {
            return Err(ObjectError::UploadEmptyObject);
        }
        let metadata = ObjectMetadata {
            key: path.to_owned(),
            last_modified_secs: now_secs,
            last_modified_nanos: now_nanos,
            total_size: size,
        };
        let ghost before = self@;
        self.objects.insert(path.to_owned(), (metadata, obj));
        proof {
            assert(self@.dom() =~= before.dom().insert(path@));
        }
        Ok(())
    }

    /// An object, or part of it.
    pub fn read(&self, path: &str, block: Option<BlockLocation>) -> (r: Result<Bytes, ObjectError>)
        requires
            self.wf(),
            block matches Some(loc) ==> loc.offset + loc.size <= usize::MAX,
        ensures
            read_result(self@, path@, block, r),
    {
        match self.objects.get(path) {
            None => Err(ObjectError::NoObject(path.to_owned())),
            Some((_, obj)) => match block {
                Some(loc) => find_block(obj, loc),
                None => Ok(bytes_clone(obj)),
            },
        }
    }

    /// Several parts of an object, or the first error.
    pub fn readv(&self, path: &str, block_locs: &Vec<BlockLocation>) -> (r: Result<Vec<Bytes>, ObjectError>)
        requires
            self.wf(),
            forall|i: int|
                0 <= i < block_locs@.len() ==> (#[trigger] block_locs@[i]).offset + block_locs@[i].size
                    <= usize::MAX,
        ensures
            match r {
                Ok(parts) => parts@.len() == block_locs@.len() && forall|i: int|
                    0 <= i < parts@.len() ==> read_result(
                        self@,
                        path@,
                        Some(block_locs@[i]),
                        Ok::<Bytes, ObjectError>(#[trigger] parts@[i]),
                    ),
                Err(e) => exists|i: int|
                    {
                        &&& 0 <= i < block_locs@.len()
                        &&& read_result(
                            self@,
                            path@,
                            Some(#[trigger] block_locs@[i]),
                            Err::<Bytes, ObjectError>(e),
                        )
                        &&& self@.contains_key(path@) ==> forall|j: int|
                            0 <= j < i ==> block_fits(#[trigger] block_locs@[j], self@[path@].content.len())
                    },
            },
    {
        let mut parts: Vec<Bytes> = Vec::new();
        let mut i: usize = 0;
        while i < block_locs.len()
            invariant
                i <= block_locs@.len(),
                self.wf(),
                parts@.len() == i,
                forall|k: int|
                    0 <= k < block_locs@.len() ==> (#[trigger] block_locs@[k]).offset + block_locs@[k].size
                        <= usize::MAX,
                forall|k: int|
                    0 <= k < i ==> read_result(
                        self@,
                        path@,
                        Some(block_locs@[k]),
                        Ok::<Bytes, ObjectError>(#[trigger] parts@[k]),
                    ),
            decreases block_locs@.len() - i,
        {
            assert(block_locs@[i as int].offset + block_locs@[i as int].size <= usize::MAX);
            match self.read(path, Some(block_locs[i])) {
                Ok(part) => {
                    parts.push(part);
                },
                Err(e) => {
                    proof {
                        assert(read_result(
                            self@,
                            path@,
                            Some(block_locs@[i as int]),
                            Err::<Bytes, ObjectError>(e),
                        ));
                        assert forall|j: int| 0 <= j < i && self@.contains_key(path@) implies block_fits(
                            #[trigger] block_locs@[j],
                            self@[path@].content.len(),
                        ) by {
                            assert(read_result(
                                self@,
                                path@,
                                Some(block_locs@[j]),
                                Ok::<Bytes, ObjectError>(parts@[j]),
                            ));
                        }
                    }
                    return Err(e);
                },
            }
            i = i + 1;
        }
        Ok(parts)
    }

    /// What is known of an object.
    pub fn metadata(&self, path: &str) -> (r: Result<ObjectMetadata, ObjectError>)
        requires
            self.wf(),
        ensures
            if self@.contains_key(path@) {
                r == Ok::<ObjectMetadata, ObjectError>(self@[path@].metadata)
            } else {
                r matches Err(ObjectError::NoObject(p)) && p@ == path@
            },
    {
        match self.objects.get(path) {
            None => Err(ObjectError::NoObject(path.to_owned())),
            Some((metadata, _)) => Ok(metadata.copy()),
        }
    }

    /// Removes an object; a path without one is left as it is.
    pub fn delete(&mut self, path: &str)
        requires
            old(self).wf(),
        ensures
            final(self).wf(),
            final(self)@ == old(self)@.remove(path@),
    {
        let ghost before = self@;
        self.objects.remove(path);
        proof {
            assert(self@ =~= before.remove(path@));
        }
    }

    /// What is known of the objects whose path starts with `prefix`, by rising path.
    pub fn list(&self, prefix: &str) -> (r: Vec<ObjectMetadata>)
        requires
            self.wf(),
        ensures
            is_listing(self@, prefix@, r@),
    {
        let mut r: Vec<ObjectMetadata> = Vec::new();
        let ghost entries = self.objects.spec_entries();
        let mut i: usize = 0;
        proof {
            assert(lists_only(entries, 0, prefix@, r@)) by {
                reveal(lists_only);
            }
            assert(lists_every(entries, 0, prefix@, r@)) by {
                reveal(lists_every);
            }
        }
        while i < self.objects.len()
            invariant
                i <= entries.len(),
                entries == self.objects.spec_entries(),
                self.wf(),
                lists_only(entries, i as int, prefix@, r@),
                lists_every(entries, i as int, prefix@, r@),
                paths_rise(r@),
            decreases entries.len() - i,
        {
            let (path, (metadata, _)) = self.objects.entry(i);
            proof {
                self.objects.lemma_entries();
            }
            if has_prefix(path.as_str(), prefix) {
                let m = metadata.copy();
                let ghost before = r@;
                insert_sorted(&mut r, m);
                proof {
                    let p = choose|p: int| 0 <= p <= before.len() && r@ == #[trigger] before.insert(p, m);
                    lemma_lists_only_next(entries, i as int, prefix@, before, p);
                    lemma_lists_every_next(entries, i as int, prefix@, before, p);
                    lemma_paths_rise_next(entries, i as int, prefix@, before, p, r@);
                }
            } else {
                proof {
                    lemma_lists_skip(entries, i as int, prefix@, r@);
                }
            }
            i = i + 1;
        }
        proof {
            lemma_lists_all(self, prefix@, r@);
        }
        r
    }
}

/// Every item of `r` stands for one of the first `n` entries.
#[verifier::opaque]
spec fn lists_only(
    entries: Seq<(String, (ObjectMetadata, Bytes))>,
    n: int,
    prefix: Seq<char>,
    r: Seq<ObjectMetadata>,
) -> bool {
    forall|k: int| 0 <= k < r.len() ==> comes_from(entries, n, prefix, #[trigger] r[k])
}

/// `m` stands for one of the first `n` entries.
spec fn comes_from(
    entries: Seq<(String, (ObjectMetadata, Bytes))>,
    n: int,
    prefix: Seq<char>,
    m: ObjectMetadata,
) -> bool {
    exists|x: int| 0 <= x < n && stands_for(#[trigger] entries[x], prefix, m)
}

/// `r` holds those of the first `n` entries whose path starts with the prefix.
#[verifier::opaque]
spec fn lists_every(
    entries: Seq<(String, (ObjectMetadata, Bytes))>,
    n: int,
    prefix: Seq<char>,
    r: Seq<ObjectMetadata>,
) -> bool {
    forall|x: int|
        0 <= x < n && path_has_prefix((#[trigger] entries[x]).0@, prefix) ==> exists|k: int|
            0 <= k < r.len() && (#[trigger] r[k]).key@ == entries[x].0@
}

/// The paths in `r` rise, and none occurs twice.
spec fn paths_rise(r: Seq<ObjectMetadata>) -> bool {
    forall|a: int, b: int|
        0 <= a < b < r.len() ==> (#[trigger] r[a]).key@ != (#[trigger] r[b]).key@ && !path_lt(r[b].key@, r[a].key@)
}

/// `m` is the metadata of the entry, and the entry's path starts with the prefix.
spec fn stands_for(entry: (String, (ObjectMetadata, Bytes)), prefix: Seq<char>, m: ObjectMetadata) -> bool {
    m == entry.1.0 && m.key@ == entry.0@ && path_has_prefix(entry.0@, prefix)
}

proof fn lemma_lists_only_next(
    entries: Seq<(String, (ObjectMetadata, Bytes))>,
    n: int,
    prefix: Seq<char>,
    before: Seq<ObjectMetadata>,
    p: int,
)
    requires
        0 <= n < entries.len(),
        lists_only(entries, n, prefix, before),
        0 <= p <= before.len(),
        stands_for(entries[n], prefix, entries[n].1.0),
    ensures
        lists_only(entries, n + 1, prefix, before.insert(p, entries[n].1.0)),
{
    reveal(lists_only);
    let after = before.insert(p, entries[n].1.0);
    assert forall|k: int| 0 <= k < after.len() implies comes_from(entries, n + 1, prefix, #[trigger] after[k]) by {
        if k == p {
            assert(stands_for(entries[n], prefix, after[k]));
        } else {
            let from = if k < p {
                k
            } else {
                k - 1
            };
            assert(after[k] == before[from]);
            assert(comes_from(entries, n, prefix, before[from]));
            let x = choose|x: int| 0 <= x < n && stands_for(#[trigger] entries[x], prefix, before[from]);
            assert(stands_for(entries[x], prefix, after[k]));
        }
    }
}

proof fn lemma_lists_every_next(
    entries: Seq<(String, (ObjectMetadata, Bytes))>,
    n: int,
    prefix: Seq<char>,
    before: Seq<ObjectMetadata>,
    p: int,
)
    requires
        0 <= n < entries.len(),
        lists_every(entries, n, prefix, before),
        0 <= p <= before.len(),
        entries[n].1.0.key@ == entries[n].0@,
    ensures
        lists_every(entries, n + 1, prefix, before.insert(p, entries[n].1.0)),
{
    reveal(lists_every);
    let after = before.insert(p, entries[n].1.0);
    assert forall|x: int| 0 <= x < n + 1 && path_has_prefix((#[trigger] entries[x]).0@, prefix) implies exists|k: int|
        0 <= k < after.len() && (#[trigger] after[k]).key@ == entries[x].0@ by {
        if x == n {
            assert(after[p].key@ == entries[x].0@);
        } else {
            let k = choose|k: int| 0 <= k < before.len() && (#[trigger] before[k]).key@ == entries[x].0@;
            if k < p {
                assert(after[k] == before[k]);
            } else {
                assert(after[k + 1] == before[k]);
            }
        }
    }
}

proof fn lemma_lists_skip(
    entries: Seq<(String, (ObjectMetadata, Bytes))>,
    n: int,
    prefix: Seq<char>,
    r: Seq<ObjectMetadata>,
)
    requires
        0 <= n < entries.len(),
        lists_only(entries, n, prefix, r),
        lists_every(entries, n, prefix, r),
        !path_has_prefix(entries[n].0@, prefix),
    ensures
        lists_only(entries, n + 1, prefix, r),
        lists_every(entries, n + 1, prefix, r),
{
    assert(lists_only(entries, n + 1, prefix, r)) by {
        reveal(lists_only);
        assert forall|k: int| 0 <= k < r.len() implies comes_from(entries, n + 1, prefix, #[trigger] r[k]) by {
            assert(comes_from(entries, n, prefix, r[k]));
            let x = choose|x: int| 0 <= x < n && stands_for(#[trigger] entries[x], prefix, r[k]);
            assert(stands_for(entries[x], prefix, r[k]));
        }
    }
    assert(lists_every(entries, n + 1, prefix, r)) by {
        reveal(lists_every);
    }
}

proof fn lemma_paths_rise_next(
    entries: Seq<(String, (ObjectMetadata, Bytes))>,
    n: int,
    prefix: Seq<char>,
    before: Seq<ObjectMetadata>,
    p: int,
    after: Seq<ObjectMetadata>,
)
    requires
        0 <= n < entries.len(),
        names_distinct(entries),
        lists_only(entries, n, prefix, before),
        paths_rise(before),
        0 <= p <= before.len(),
        after == before.insert(p, entries[n].1.0),
        entries[n].1.0.key@ == entries[n].0@,
        forall|i: int, j: int|
            0 <= i < j < after.len() ==> !path_lt((#[trigger] after[j]).key@, (#[trigger] after[i]).key@),
    ensures
        paths_rise(after),
{
    reveal(lists_only);
    assert forall|a: int, b: int| 0 <= a < b < after.len() implies (#[trigger] after[a]).key@ != (
    #[trigger] after[b]).key@ && !path_lt(after[b].key@, after[a].key@) by {
        if a == p {
            assert(after[b] == before[b - 1]);
            assert(comes_from(entries, n, prefix, before[b - 1]));
            let x = choose|x: int| 0 <= x < n && stands_for(#[trigger] entries[x], prefix, before[b - 1]);
            assert(entries[x].0@ != entries[n].0@);
        } else if b == p {
            assert(after[a] == before[a]);
            assert(comes_from(entries, n, prefix, before[a]));
            let x = choose|x: int| 0 <= x < n && stands_for(#[trigger] entries[x], prefix, before[a]);
            assert(entries[x].0@ != entries[n].0@);
        } else {
            let fa = if a < p {
                a
            } else {
                a - 1
            };
            let fb = if b < p {
                b
            } else {
                b - 1
            };
            assert(after[a] == before[fa] && after[b] == before[fb]);
        }
    }
}

proof fn lemma_lists_all(store: &InMemObjectStore, prefix: Seq<char>, r: Seq<ObjectMetadata>)
    requires
        store.wf(),
        lists_only(store.objects.spec_entries(), store.objects.spec_entries().len() as int, prefix, r),
        lists_every(store.objects.spec_entries(), store.objects.spec_entries().len() as int, prefix, r),
        paths_rise(r),
    ensures
        is_listing(store@, prefix, r),
{
    let entries = store.objects.spec_entries();
    store.objects.lemma_entries();
    assert forall|k: int| #![trigger r[k]] 0 <= k < r.len() implies store@.contains_key(r[k].key@) && path_has_prefix(
        r[k].key@,
        prefix,
    ) && store@[r[k].key@].metadata == r[k] by {
        reveal(lists_only);
        assert(comes_from(entries, entries.len() as int, prefix, r[k]));
            let x = choose|x: int| 0 <= x < entries.len() && stands_for(#[trigger] entries[x], prefix, r[k]);
        lemma_named(entries, x);
    }
    assert forall|i: int, j: int| 0 <= i < j < r.len() implies path_lt((#[trigger] r[i]).key@, (#[trigger] r[j]).key@) by {
        let (a, b) = (r[i].key@, r[j].key@);
        lemma_bytes_trichotomy(vstd::utf8::encode_utf8(a), vstd::utf8::encode_utf8(b));
        vstd::utf8::encode_utf8_decode_utf8(a);
        vstd::utf8::encode_utf8_decode_utf8(b);
    }
    assert forall|path: Seq<char>| #[trigger] store@.contains_key(path) && path_has_prefix(path, prefix) implies exists|
        k: int,
    | 0 <= k < r.len() && (#[trigger] r[k]).key@ == path by {
        reveal(lists_every);
        assert(has_name(entries, path));
        let x = index_of_name(entries, path);
        assert(path_has_prefix(entries[x].0@, prefix));
    }
}

/// What was uploaded is read: the whole object, and each block that lies within it.
pub proof fn law_uploaded_is_read(
    before: Map<Seq<char>, ObjectView>,
    after: Map<Seq<char>, ObjectView>,
    path: Seq<char>,
    content: Seq<u8>,
    now_secs: u64,
    now_nanos: u32,
    block: Option<BlockLocation>,
    r: Result<Bytes, ObjectError>,
)
    requires
        is_uploaded(before, after, path, content, now_secs, now_nanos),
        read_result(after, path, block, r),
    ensures
        match block {
            None => r matches Ok(b) && bytes_content(b) == content,
            Some(loc) => if block_fits(loc, content.len()) {
                r matches Ok(b) && bytes_content(b) == content.subrange(loc.offset as int, loc.offset + loc.size)
            } else {
                r matches Err(ObjectError::BadBlock)
            },
        },
{
    assert(after.dom().contains(path));
}

/// An upload changes nothing of what is read from other paths.
pub proof fn law_upload_keeps_others(
    before: Map<Seq<char>, ObjectView>,
    after: Map<Seq<char>, ObjectView>,
    path: Seq<char>,
    content: Seq<u8>,
    now_secs: u64,
    now_nanos: u32,
    other: Seq<char>,
    block: Option<BlockLocation>,
    r: Result<Bytes, ObjectError>,
)
    requires
        is_uploaded(before, after, path, content, now_secs, now_nanos),
        other != path,
    ensures
        read_result(after, other, block, r) == read_result(before, other, block, r),
{
    assert(after.dom().contains(other) == before.dom().contains(other));
}

/// A deleted object is not found, and other objects are.
pub proof fn law_deleted_is_not_found(
    objects: Map<Seq<char>, ObjectView>,
    path: Seq<char>,
    other: Seq<char>,
    block: Option<BlockLocation>,
    r: Result<Bytes, ObjectError>,
)
    ensures
        read_result(objects.remove(path), path, block, r) ==> (r matches Err(ObjectError::NoObject(
            p,
        )) && p@ == path),
        other != path ==> read_result(objects.remove(path), other, block, r) == read_result(objects, other, block, r),
{
}

/// In every store, the metadata of an object holds its path, and its size is the length
/// of its bytes.
pub proof fn law_size_is_length(store: InMemObjectStore, path: Seq<char>)
    requires
        store.wf(),
        store@.contains_key(path),
    ensures
        store@[path].metadata.key@ == path,
        store@[path].metadata.total_size == store@[path].content.len(),
{
    assert(store.objects@.contains_key(path));
}

/// A listing without a prefix names every object, and the sizes in a listing are the
/// lengths of the objects.
pub proof fn law_listing_is_complete(store: InMemObjectStore, prefix: Seq<char>, r: Seq<ObjectMetadata>)
    requires
        store.wf(),
        is_listing(store@, prefix, r),
    ensures
        forall|i: int| 0 <= i < r.len() ==> (#[trigger] r[i]).total_size == store@[r[i].key@].content.len(),
        prefix.len() == 0 ==> forall|path: Seq<char>| #[trigger]
            store@.contains_key(path) ==> exists|i: int| 0 <= i < r.len() && (#[trigger] r[i]).key@ == path,
{
    assert forall|i: int| 0 <= i < r.len() implies (#[trigger] r[i]).total_size == store@[r[i].key@].content.len() by {
        law_size_is_length(store, r[i].key@);
    }
    if prefix.len() == 0 {
        assert forall|path: Seq<char>| #[trigger] store@.contains_key(path) implies exists|i: int|
            0 <= i < r.len() && (#[trigger] r[i]).key@ == path by {
            let (p, q) = (vstd::utf8::encode_utf8(path), vstd::utf8::encode_utf8(prefix));
            assert(q.len() == 0);
            assert(p.subrange(0, 0) =~= q);
            assert(path_has_prefix(path, prefix));
        }
    }
}

/// A block of an object is the bytes of the object from its offset on, as many as its size; a block that
/// reaches beyond the object is an error, and so is a path without an object.
pub proof fn law_block_is_part_of_object(
    objects: Map<Seq<char>, ObjectView>,
    path: Seq<char>,
    block: BlockLocation,
    r: Result<Bytes, ObjectError>,
)
    requires
        read_result(objects, path, Some(block), r),
    ensures
        !objects.contains_key(path) ==> r matches Err(ObjectError::NoObject(_)),
        objects.contains_key(path) ==> {
            let content = objects[path].content;
            &&& block.offset + block.size > content.len() ==> (r matches Err(ObjectError::BadBlock))
            &&& block.offset + block.size <= content.len() ==> {
                &&& r matches Ok(b)
                &&& bytes_content(b).len() == block.size
                &&& forall|i: int| 0 <= i < block.size ==> #[trigger] bytes_content(b)[i] == content[block.offset + i]
            }
        },
{
}

/// The text of an error; that of a missing object names its path.
pub proof fn law_texts_of_errors(path: String)
    ensures
        error_text(ObjectError::UploadEmptyObject) == "upload empty object"@,
        error_text(ObjectError::BadBlock) == "bad block offset and size"@,
        error_text(ObjectError::NoObject(path)) == "no object at path '"@ + path@ + "'"@,
{
}

} // verus!

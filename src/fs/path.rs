//! Resolving absolute and relative paths through nested directories.
use vstd::prelude::*;
use vstd::utf8::{encode_utf8, is_ascii_chars, is_ascii_chars_encode_utf8};
use crate::device::block_device::BlockDevice;
use crate::fs::boot_sector::BootSector;
use crate::fs::directory::{
    DirectoryEntry, DirectoryReader, EntryType, EntryView, entries_view, listing_view,
};

verus! {

/// Byte of the path separator `/`.
pub const SEPARATOR: u8 = 0x2F;

/// Byte of the no-op segment `.`.
pub const DOT: u8 = 0x2E;

/// Failure of a path resolution.
#[derive(Debug, Clone, Copy, PartialEq, Eq, Structural)]
pub enum PathError {
    /// A segment names no entry, or a directory on the way could not be read.
    NotFound,
    /// The path names something that is not a directory where one is needed.
    NotADirectory,
    /// The path is empty.
    EmptyPath,
}

/// `cur` as a segment list: nothing when it is empty.
pub open spec fn flush(cur: Seq<u8>) -> Seq<Seq<u8>> {
    if cur.len() == 0 {
        Seq::empty()
    } else {
        seq![cur]
    }
}

/// The non-empty `/`-separated segments of `cur + p`.
pub open spec fn segments_from(p: Seq<u8>, cur: Seq<u8>) -> Seq<Seq<u8>>
    decreases p.len(),
{
    if p.len() == 0 {
        flush(cur)
    } else if p[0] == SEPARATOR {
        flush(cur) + segments_from(p.drop_first(), Seq::empty())
    } else {
        segments_from(p.drop_first(), cur.push(p[0]))
    }
}

/// The non-empty segments of the path with bytes `p`, in order.
pub open spec fn path_segments(p: Seq<u8>) -> Seq<Seq<u8>> {
    segments_from(p, Seq::empty())
}

/// The segment `.`, which stays where it is.
pub open spec fn is_dot(seg: Seq<u8>) -> bool {
    seg == seq![DOT]
}

/// Every segment is `.`.
pub open spec fn all_dots(segs: Seq<Seq<u8>>) -> bool {
    forall|k: int| 0 <= k < segs.len() ==> is_dot(#[trigger] segs[k])
}

/// `segs` without its `.` segments.
pub open spec fn strip_dots(segs: Seq<Seq<u8>>) -> Seq<Seq<u8>>
    decreases segs.len(),
{
    if segs.len() == 0 {
        segs
    } else if is_dot(segs[0]) {
        strip_dots(segs.drop_first())
    } else {
        seq![segs[0]] + strip_dots(segs.drop_first())
    }
}

/// The entry is named exactly (byte for byte) by the segment.
pub open spec fn names(e: EntryView, seg: Seq<u8>) -> bool {
    encode_utf8(e.name) == seg
}

/// The first entry, in listing order, that the segment names.
pub open spec fn find_entry(es: Seq<EntryView>, seg: Seq<u8>) -> Option<EntryView>
    decreases es.len(),
{
    if es.len() == 0 {
        None
    } else if names(es[0], seg) {
        Some(es[0])
    } else {
        find_entry(es.drop_first(), seg)
    }
}

/// The value of an optional entry.
pub open spec fn entry_view(o: Option<DirectoryEntry>) -> Option<EntryView> {
    match o {
        Some(e) => Some(e@),
        None => None,
    }
}

/// The value of a resolution result.
pub open spec fn resolution_view(r: Result<(u32, Option<DirectoryEntry>), PathError>) -> Result<
    (u32, Option<EntryView>),
    PathError,
> {
    match r {
        Ok((c, e)) => Ok((c, entry_view(e))),
        Err(e) => Err(e),
    }
}

/// The values of a list of byte vectors.
pub open spec fn segment_views(v: Seq<Vec<u8>>) -> Seq<Seq<u8>> {
    v.map_values(|s: Vec<u8>| s@)
}

/// Walks a path through nested directories.
pub struct PathResolver<'a, D: BlockDevice> {
    boot: &'a BootSector,
    dir_reader: &'a DirectoryReader<'a, D>,
}

impl<'a, D: BlockDevice> PathResolver<'a, D> {
    /// Geometry of the volume, which gives the root cluster.
    pub closed spec fn geometry(&self) -> BootSector {
        *self.boot
    }

    /// The reader of the directories walked through.
    pub closed spec fn dirs(&self) -> DirectoryReader<'a, D> {
        *self.dir_reader
    }

    /// The devices read answer every read within their contents.
    pub open spec fn answers(&self) -> bool {
        self.dirs().answers()
    }

    /// The outcome of walking `segs` from directory `cluster`, with `last`
    /// the entry matched so far, when the devices answer every read within
    /// their contents. A file
    /// ends the walk at once, whatever segments follow it.
    pub open spec fn walk(&self, cluster: u32, segs: Seq<Seq<u8>>, last: Option<EntryView>) -> Result<
        (u32, Option<EntryView>),
        PathError,
    >
        decreases segs.len(),
    {
        if segs.len() == 0 {
            Ok((cluster, last))
        } else if is_dot(segs[0]) {
            self.walk(cluster, segs.drop_first(), last)
        } else {
            match self.dirs().dir_model(cluster) {
                Err(_) => Err(PathError::NotFound),
                Ok(es) => match find_entry(es, segs[0]) {
                    None => Err(PathError::NotFound),
                    Some(e) => match e.entry_type {
                        EntryType::Directory => self.walk(
                            e.start_cluster,
                            segs.drop_first(),
                            Some(e),
                        ),
                        EntryType::File => Ok((e.start_cluster, Some(e))),
                    },
                },
            }
        }
    }

    /// Where a walk along `path` starts: the root for an absolute path,
    /// else `cwd`.
    pub open spec fn start_of(&self, path: Seq<char>, cwd: u32) -> u32 {
        let bytes = encode_utf8(path);
        if bytes.len() > 0 && bytes[0] == SEPARATOR {
            self.geometry().root_cluster
        } else {
            cwd
        }
    }

    /// What `resolve(path, cwd)` gives when the devices answer every read
    /// within their contents.
    pub open spec fn resolve_spec(&self, path: Seq<char>, cwd: u32) -> Result<
        (u32, Option<EntryView>),
        PathError,
    > {
        if path.len() == 0 {
            Err(PathError::EmptyPath)
        } else {
            self.walk(self.start_of(path, cwd), path_segments(encode_utf8(path)), None)
        }
    }

    pub fn new(boot: &'a BootSector, dir_reader: &'a DirectoryReader<'a, D>) -> (r: Self)
        ensures
            r.geometry() == *boot,
            r.dirs() == *dir_reader,
    {
        PathResolver { boot, dir_reader }
    }

    /// A walk only ever fails with `NotFound`.
    pub proof fn lemma_walk_fails_not_found(
        &self,
        cluster: u32,
        segs: Seq<Seq<u8>>,
        last: Option<EntryView>,
    )
        ensures
            self.walk(cluster, segs, last) is Err ==> self.walk(cluster, segs, last) == Err::<
                (u32, Option<EntryView>),
                PathError,
            >(PathError::NotFound),
        decreases segs.len(),
    {
        if segs.len() > 0 {
            if is_dot(segs[0]) {
                self.lemma_walk_fails_not_found(cluster, segs.drop_first(), last);
            } else {
                match self.dirs().dir_model(cluster) {
                    Err(_) => {},
                    Ok(es) => match find_entry(es, segs[0]) {
                        None => {},
                        Some(e) => {
                            self.lemma_walk_fails_not_found(e.start_cluster, segs.drop_first(), Some(e));
                        },
                    },
                }
            }
        }
    }

    /// Segments that are all `.` leave the walk where it started, with the
    /// entry matched so far unchanged.
    pub proof fn lemma_dots_stay(&self, cluster: u32, segs: Seq<Seq<u8>>, last: Option<EntryView>)
        requires
            all_dots(segs),
        ensures
            self.walk(cluster, segs, last) == Ok::<(u32, Option<EntryView>), PathError>(
                (cluster, last),
            ),
        decreases segs.len(),
    {
        if segs.len() > 0 {
            assert(is_dot(segs[0]));
            let rest = segs.drop_first();
            assert forall|k: int| 0 <= k < rest.len() implies is_dot(#[trigger] rest[k]) by {
                assert(rest[k] == segs[k + 1]);
            }
            self.lemma_dots_stay(cluster, rest, last);
        }
    }

    /// A segment that names a file ends the walk: the segments after it are
    /// ignored, and the result is the file's cluster and entry.
    pub proof fn lemma_file_ends_walk(
        &self,
        cluster: u32,
        seg: Seq<u8>,
        rest: Seq<Seq<u8>>,
        last: Option<EntryView>,
        es: Seq<EntryView>,
        e: EntryView,
    )
        requires
            !is_dot(seg),
            self.dirs().dir_model(cluster) == Ok::<Seq<EntryView>, crate::fs::directory::DirectoryError>(es),
            find_entry(es, seg) == Some(e),
            e.entry_type == EntryType::File,
        ensures
            self.walk(cluster, seq![seg] + rest, last) == Ok::<(u32, Option<EntryView>), PathError>(
                (e.start_cluster, Some(e)),
            ),
    {
        let segs = seq![seg] + rest;
        assert(segs[0] == seg);
    }

    /// The path `.` resolves to the starting directory itself, with no entry.
    pub proof fn lemma_dot_resolves_to_cwd(&self, path: Seq<char>, cwd: u32)
        requires
            path == seq!['.'],
        ensures
            all_dots(path_segments(encode_utf8(path))),
            self.start_of(path, cwd) == cwd,
            self.resolve_spec(path, cwd) == Ok::<(u32, Option<EntryView>), PathError>((cwd, None)),
    {
        let bytes = encode_utf8(path);
        assert(is_ascii_chars(path));
        is_ascii_chars_encode_utf8(path);
        assert(path[0] as u8 == DOT);
        assert(bytes =~= seq![DOT]);
        let segs = path_segments(bytes);
        assert(bytes.drop_first() =~= Seq::<u8>::empty());
        assert(Seq::<u8>::empty().push(DOT) =~= seq![DOT]);
        assert(segs == segments_from(bytes.drop_first(), Seq::<u8>::empty().push(DOT)));
        assert(segments_from(Seq::<u8>::empty(), seq![DOT]) == flush(seq![DOT]));
        assert(segs =~= seq![seq![DOT]]);
        self.lemma_dots_stay(cwd, segs, None);
    }

    /// `.` segments do not change a walk.
    pub proof fn lemma_walk_ignores_dots(&self, cluster: u32, segs: Seq<Seq<u8>>, last: Option<EntryView>)
        ensures
            self.walk(cluster, segs, last) == self.walk(cluster, strip_dots(segs), last),
        decreases segs.len(),
    {
        if segs.len() > 0 {
            let rest = segs.drop_first();
            if is_dot(segs[0]) {
                self.lemma_walk_ignores_dots(cluster, rest, last);
            } else {
                let t = strip_dots(segs);
                assert(t[0] == segs[0]);
                assert(t.drop_first() =~= strip_dots(rest));
                match self.dirs().dir_model(cluster) {
                    Err(_) => {},
                    Ok(es) => match find_entry(es, segs[0]) {
                        None => {},
                        Some(e) => {
                            self.lemma_walk_ignores_dots(e.start_cluster, rest, Some(e));
                        },
                    },
                }
            }
        }
    }

    /// Two non-empty paths that start at the same place and have the same
    /// segments once `.` segments are dropped resolve alike (for instance
    /// `/DIR`, `//DIR/./` and `/./DIR/`).
    pub proof fn lemma_same_segments_resolve_alike(&self, p: Seq<char>, q: Seq<char>, cwd: u32)
        requires
            p.len() > 0,
            q.len() > 0,
            self.start_of(p, cwd) == self.start_of(q, cwd),
            strip_dots(path_segments(encode_utf8(p))) == strip_dots(path_segments(encode_utf8(q))),
        ensures
            self.resolve_spec(p, cwd) == self.resolve_spec(q, cwd),
    {
        let c = self.start_of(p, cwd);
        self.lemma_walk_ignores_dots(c, path_segments(encode_utf8(p)), None);
        self.lemma_walk_ignores_dots(c, path_segments(encode_utf8(q)), None);
    }

    /// An absolute path resolves the same whatever the working directory.
    pub proof fn lemma_absolute_ignores_cwd(&self, p: Seq<char>, c1: u32, c2: u32)
        requires
            encode_utf8(p).len() > 0,
            encode_utf8(p)[0] == SEPARATOR,
        ensures
            self.resolve_spec(p, c1) == self.resolve_spec(p, c2),
    {
    }

    /// One step of a walk: a `.` segment is skipped.
    pub proof fn lemma_walk_dot(&self, cluster: u32, segs: Seq<Seq<u8>>, last: Option<EntryView>)
        requires
            segs.len() > 0,
            is_dot(segs[0]),
        ensures
            self.walk(cluster, segs, last) == self.walk(cluster, segs.drop_first(), last),
    {
    }

    /// One step of a walk: a segment that names nothing, or a directory that
    /// cannot be listed, stops the walk with `NotFound`.
    pub proof fn lemma_walk_missing(&self, cluster: u32, segs: Seq<Seq<u8>>, last: Option<EntryView>)
        requires
            segs.len() > 0,
            !is_dot(segs[0]),
            match self.dirs().dir_model(cluster) {
                Ok(es) => find_entry(es, segs[0]) is None,
                Err(_) => true,
            },
        ensures
            self.walk(cluster, segs, last) == Err::<(u32, Option<EntryView>), PathError>(
                PathError::NotFound,
            ),
    {
    }

    /// One step of a walk: a directory is entered, a file ends the walk.
    pub proof fn lemma_walk_found(
        &self,
        cluster: u32,
        segs: Seq<Seq<u8>>,
        last: Option<EntryView>,
        es: Seq<EntryView>,
        e: EntryView,
    )
        requires
            segs.len() > 0,
            !is_dot(segs[0]),
            self.dirs().dir_model(cluster) == Ok::<Seq<EntryView>, crate::fs::directory::DirectoryError>(es),
            find_entry(es, segs[0]) == Some(e),
        ensures
            e.entry_type == EntryType::Directory ==> self.walk(cluster, segs, last) == self.walk(
                e.start_cluster,
                segs.drop_first(),
                Some(e),
            ),
            e.entry_type == EntryType::File ==> self.walk(cluster, segs, last) == Ok::<
                (u32, Option<EntryView>),
                PathError,
            >((e.start_cluster, Some(e))),
    {
    }

    /// Lists the directory at `cluster`; any failure is reported as `NotFound`.
    pub fn read_dir(&self, cluster: u32) -> (r: Result<Vec<DirectoryEntry>, PathError>)
        ensures
            self.answers() ==> match self.dirs().dir_model(cluster) {
                Ok(es) => (r matches Ok(v) && entries_view(v@) == es),
                Err(_) => r == Err::<Vec<DirectoryEntry>, PathError>(PathError::NotFound),
            },
            r matches Ok(v) ==> self.dirs().dir_model(cluster) == Ok::<
                Seq<EntryView>,
                crate::fs::directory::DirectoryError,
            >(entries_view(v@)),
            r is Err ==> r == Err::<Vec<DirectoryEntry>, PathError>(PathError::NotFound),
            self.dirs().dir_model(cluster) is Err ==> r is Err,
    {
        match self.dir_reader.read_dir(cluster) {
            Ok(v) => Ok(v),
            Err(_) => Err(PathError::NotFound),
        }
    }

    /// Resolves `path` (absolute when it starts with `/`, else relative to
    /// `cwd`) to a cluster and the entry of its last matched segment.
    /// A directory that cannot be read counts as `NotFound`.
    pub fn resolve(&self, path: &str, cwd: u32) -> (r: Result<(u32, Option<DirectoryEntry>), PathError>)
        ensures
            self.answers() ==> resolution_view(r) == self.resolve_spec(path@, cwd),
            path@.len() == 0 <==> r == Err::<(u32, Option<DirectoryEntry>), PathError>(
                PathError::EmptyPath,
            ),
            r is Ok ==> resolution_view(r) == self.resolve_spec(path@, cwd),
            r is Err ==> r == Err::<(u32, Option<DirectoryEntry>), PathError>(PathError::NotFound)
                || resolution_view(r) == self.resolve_spec(path@, cwd),
            self.resolve_spec(path@, cwd) is Err ==> resolution_view(r) == self.resolve_spec(
                path@,
                cwd,
            ),
            path@.len() > 0 && all_dots(path_segments(encode_utf8(path@))) ==> resolution_view(r)
                == Ok::<(u32, Option<EntryView>), PathError>((self.start_of(path@, cwd), None)),
    {
        if path.is_empty() {
            return Err(PathError::EmptyPath);
        }
        let bytes = path.as_bytes();
        let mut current = if bytes.len() > 0 && bytes[0] == SEPARATOR {
            self.boot.root_cluster
        } else {
            cwd
        };
        assert(bytes@ == encode_utf8(path@));
        let segs = split_path(bytes);
        let ghost sv = segment_views(segs@);
        let n = segs.len();
        let mut last: Option<DirectoryEntry> = None;
        let mut i: usize = 0;
        proof {
            assert(sv.subrange(0, n as int) =~= sv);
            assert(sv == path_segments(encode_utf8(path@)));
            self.lemma_walk_fails_not_found(current, sv, None);
            if all_dots(sv) {
                self.lemma_dots_stay(current, sv, None);
            }
        }
        while i < n
            invariant
                n == segs@.len() == sv.len(),
                sv == segment_views(segs@),
                sv == path_segments(encode_utf8(path@)),
                i <= n,
                self.resolve_spec(path@, cwd) == self.walk(
                    current,
                    sv.subrange(i as int, n as int),
                    entry_view(last),
                ),
                self.resolve_spec(path@, cwd) is Err ==> self.resolve_spec(path@, cwd) == Err::<
                    (u32, Option<EntryView>),
                    PathError,
                >(PathError::NotFound),
                all_dots(sv) ==> current == self.start_of(path@, cwd) && last is None,
            decreases n - i,
        {
            let seg = &segs[i];
            let ghost rest = sv.subrange(i as int, n as int);
            proof {
                assert(sv[i as int] == seg@);
                assert(rest[0] == seg@);
                assert(rest.drop_first() =~= sv.subrange(i + 1, n as int));
            }
            if is_dot_segment(seg) {
                proof {
                    self.lemma_walk_dot(current, rest, entry_view(last));
                }
                i = i + 1;
            } else {
                proof {
                    if all_dots(sv) {
                        assert(is_dot(sv[i as int]));
                    }
                }
                let mut entries = match self.dir_reader.read_dir(current) {
                    Ok(v) => v,
                    Err(_) => {
                        proof {
                            if self.answers() {
                                self.lemma_walk_missing(current, rest, entry_view(last));
                            }
                        }
                        return Err(PathError::NotFound);
                    },
                };
                let ghost es = entries_view(entries@);
                let j = match position_of(&entries, seg) {
                    Some(j) => j,
                    None => {
                        proof {
                            self.lemma_walk_missing(current, rest, entry_view(last));
                        }
                        return Err(PathError::NotFound);
                    },
                };
                let entry = entries.remove(j);
                proof {
                    assert(entry@ == es[j as int]);
                    self.lemma_walk_found(current, rest, entry_view(last), es, entry@);
                }
                match entry.entry_type {
                    EntryType::Directory => {
                        current = entry.start_cluster;
                        last = Some(entry);
                    },
                    EntryType::File => {
                        let c = entry.start_cluster;
                        return Ok((c, Some(entry)));
                    },
                }
                i = i + 1;
            }
        }
        proof {
            assert(sv.subrange(n as int, n as int) =~= Seq::<Seq<u8>>::empty());
        }
        Ok((current, last))
    }
}

/// The segment is `.`.
fn is_dot_segment(seg: &Vec<u8>) -> (r: bool)
    ensures
        r == is_dot(seg@),
{
    if seg.len() == 1 && seg[0] == DOT {
        assert(seg@ =~= seq![DOT]);
        true
    } else {
        false
    }
}

/// Byte-wise equality of two slices.
fn bytes_equal(a: &[u8], b: &[u8]) -> (r: bool)
    ensures
        r == (a@ == b@),
{
    if a.len() != b.len() {
        return false;
    }
    let mut i: usize = 0;
    while i < a.len()
        invariant
            a@.len() == b@.len(),
            i <= a@.len(),
            forall|k: int| 0 <= k < i ==> a@[k] == b@[k],
        decreases a@.len() - i,
    {
        if a[i] != b[i] {
            return false;
        }
        i = i + 1;
    }
    assert(a@ =~= b@);
    true
}

/// Index of the first entry that `seg` names.
fn position_of(entries: &Vec<DirectoryEntry>, seg: &Vec<u8>) -> (r: Option<usize>)
    ensures
        r matches Some(j) ==> j < entries@.len() && find_entry(entries_view(entries@), seg@) == Some(
            entries@[j as int]@,
        ),
        r is None ==> find_entry(entries_view(entries@), seg@) is None,
{
    let ghost es = entries_view(entries@);
    let n = entries.len();
    let mut j: usize = 0;
    assert(es.subrange(0, n as int) =~= es);
    while j < n
        invariant
            n == entries@.len() == es.len(),
            es == entries_view(entries@),
            j <= n,
            find_entry(es, seg@) == find_entry(es.subrange(j as int, n as int), seg@),
        decreases n - j,
    {
        let name = entries[j].name.as_str().as_bytes();
        assert(es.subrange(j as int, n as int)[0] == es[j as int]);
        assert(es.subrange(j as int, n as int).drop_first() =~= es.subrange(j + 1, n as int));
        if bytes_equal(name, seg.as_slice()) {
            return Some(j);
        }
        j = j + 1;
    }
    None
}

/// Splits path bytes into their non-empty `/`-separated segments.
fn split_path(p: &[u8]) -> (r: Vec<Vec<u8>>)
    ensures
        segment_views(r@) == path_segments(p@),
{
    let mut out: Vec<Vec<u8>> = Vec::new();
    let mut cur: Vec<u8> = Vec::new();
    let n = p.len();
    let mut i: usize = 0;
    assert(p@.subrange(0, n as int) =~= p@);
    assert(segment_views(out@) =~= Seq::<Seq<u8>>::empty());
    assert(Seq::<Seq<u8>>::empty() + path_segments(p@) =~= path_segments(p@));
    while i < n
        invariant
            n == p@.len(),
            i <= n,
            segment_views(out@) + segments_from(p@.subrange(i as int, n as int), cur@)
                == path_segments(p@),
        decreases n - i,
    {
        let ghost tail = p@.subrange(i as int, n as int);
        assert(tail[0] == p@[i as int]);
        assert(tail.drop_first() =~= p@.subrange(i + 1, n as int));
        let ghost before = segment_views(out@);
        if p[i] == SEPARATOR {
            let ghost c = cur@;
            let ghost after = segments_from(p@.subrange(i + 1, n as int), Seq::empty());
            assert(segments_from(tail, c) == flush(c) + after);
            if cur.len() > 0 {
                out.push(cur);
            }
            assert(segment_views(out@) =~= before + flush(c));
            assert(before + (flush(c) + after) =~= (before + flush(c)) + after);
            cur = Vec::new();
        } else {
            cur.push(p[i]);
        }
        i = i + 1;
    }
    if cur.len() > 0 {
        let ghost before = segment_views(out@);
        let ghost c = cur@;
        out.push(cur);
        assert(segment_views(out@) =~= before + seq![c]);
    } else {
        assert(segment_views(out@) =~= segment_views(out@) + Seq::<Seq<u8>>::empty());
    }
    out
}

} // verus!

//! Reading the whole content of a file.
use vstd::prelude::*;
use crate::device::block_device::BlockDevice;
use crate::fs::clusters::ClusterReader;
use crate::fs::directory::{DirectoryEntry, EntryType, EntryView};
use crate::fs::path::{PathError, PathResolver, resolution_view};

verus! {

/// Failure of a file read.
#[derive(Debug, Clone, Copy, PartialEq, Eq, Structural)]
pub enum CatError {
    /// The path names nothing (or only a starting directory).
    NotFound,
    /// The path names a directory.
    NotAFile,
    /// The path was unusable or the file's clusters could not be read.
    Io,
}

/// `bytes` cut to at most `size` bytes.
pub open spec fn cut_to_size(bytes: Seq<u8>, size: u32) -> Seq<u8> {
    if size < bytes.len() {
        bytes.take(size as int)
    } else {
        bytes
    }
}

/// The file a resolution result names, or why there is none: a missing path
/// or a bare starting directory is `NotFound`, a directory is `NotAFile`, any
/// other resolution failure is `Io`.
pub open spec fn file_choice(res: Result<(u32, Option<EntryView>), PathError>) -> Result<
    EntryView,
    CatError,
> {
    match res {
        Err(PathError::NotFound) => Err(CatError::NotFound),
        Err(_) => Err(CatError::Io),
        Ok((_, None)) => Err(CatError::NotFound),
        Ok((_, Some(e))) => if e.entry_type != EntryType::File {
            Err(CatError::NotAFile)
        } else {
            Ok(e)
        },
    }
}

/// The value of a file read.
pub open spec fn content_view(r: Result<Vec<u8>, CatError>) -> Result<Seq<u8>, CatError> {
    match r {
        Ok(v) => Ok(v@),
        Err(e) => Err(e),
    }
}

/// Picks the file entry out of a resolution result.
pub fn file_to_read(resolved: Result<(u32, Option<DirectoryEntry>), PathError>) -> (r: Result<
    DirectoryEntry,
    CatError,
>)
    ensures
        match r {
            Ok(e) => file_choice(resolution_view(resolved)) == Ok::<EntryView, CatError>(e@),
            Err(x) => file_choice(resolution_view(resolved)) == Err::<EntryView, CatError>(x),
        },
{
    let entry_opt = match resolved {
        Ok((_, e)) => e,
        Err(PathError::NotFound) => {
            return Err(CatError::NotFound);
        },
        Err(_) => {
            return Err(CatError::Io);
        },
    };
    let entry = match entry_opt {
        Some(e) => e,
        None => {
            return Err(CatError::NotFound);
        },
    };
    if entry.entry_type != EntryType::File {
        return Err(CatError::NotAFile);
    }
    Ok(entry)
}

/// Reads files named by paths.
pub struct Cat<'a, D: BlockDevice> {
    resolver: &'a PathResolver<'a, D>,
    cluster_reader: &'a ClusterReader<'a, D>,
}

impl<'a, D: BlockDevice> Cat<'a, D> {
    /// The resolver of paths.
    pub closed spec fn paths(&self) -> PathResolver<'a, D> {
        *self.resolver
    }

    /// The reader of file contents.
    pub closed spec fn chains(&self) -> ClusterReader<'a, D> {
        *self.cluster_reader
    }

    /// The devices read answer every read within their contents.
    pub open spec fn answers(&self) -> bool {
        self.paths().answers() && self.chains().answers()
    }

    /// What `cat(path, cwd)` gives when the devices answer every read within
    /// their contents: the file's chain bytes cut to its declared size.
    pub open spec fn cat_spec(&self, path: Seq<char>, cwd: u32) -> Result<Seq<u8>, CatError> {
        match file_choice(self.paths().resolve_spec(path, cwd)) {
            Err(x) => Err(x),
            Ok(e) => match self.chains().chain_model(e.start_cluster) {
                Err(_) => Err(CatError::Io),
                Ok(bytes) => Ok(cut_to_size(bytes, e.size)),
            },
        }
    }

    pub fn new(resolver: &'a PathResolver<'a, D>, cluster_reader: &'a ClusterReader<'a, D>) -> (r:
        Self)
        ensures
            r.paths() == *resolver,
            r.chains() == *cluster_reader,
    {
        Cat { resolver, cluster_reader }
    }

    /// The content of the file named by `path`. On devices that answer it is
    /// the one the volume gives; otherwise a failed read shows as `NotFound`
    /// while the path is walked and as `Io` while the file is read.
    pub fn cat(&self, path: &str, cwd: u32) -> (r: Result<Vec<u8>, CatError>)
        ensures
            path@.len() == 0 ==> r == Err::<Vec<u8>, CatError>(CatError::Io),
            self.answers() ==> content_view(r) == self.cat_spec(path@, cwd),
            r matches Ok(v) ==> self.cat_spec(path@, cwd) == Ok::<Seq<u8>, CatError>(v@),
            r matches Err(e) ==> e == CatError::NotFound || e == CatError::Io || self.cat_spec(
                path@,
                cwd,
            ) == Err::<Seq<u8>, CatError>(e),
            self.cat_spec(path@, cwd) == Err::<Seq<u8>, CatError>(CatError::NotFound) ==> r
                == Err::<Vec<u8>, CatError>(CatError::NotFound),
    {
        let entry = match file_to_read(self.resolver.resolve(path, cwd)) {
            Ok(e) => e,
            Err(x) => {
                return Err(x);
            },
        };
        let mut data: Vec<u8> = Vec::new();
        match self.cluster_reader.read_cluster_chain(entry.start_cluster, &mut data) {
            Ok(()) => {},
            Err(_) => {
                return Err(CatError::Io);
            },
        }
        assert(data@ =~= Seq::<u8>::empty() + data@);
        let ghost bytes = data@;
        data.truncate(entry.size as usize);
        assert(entry.size < bytes.len() ==> data@ =~= bytes.take(entry.size as int));
        assert(entry.size >= bytes.len() ==> data@ =~= bytes);
        Ok(data)
    }
}

} // verus!

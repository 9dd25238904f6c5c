//! Listing directories.
use vstd::prelude::*;
use crate::device::block_device::BlockDevice;
use crate::fs::directory::{DirectoryEntry, EntryType, EntryView, entries_view};
use crate::fs::path::{PathError, PathResolver, resolution_view};

verus! {

/// The cluster to list for a resolution result: failures pass through, a
/// file is `NotADirectory`, anything else gives the reached cluster.
pub open spec fn list_choice(res: Result<(u32, Option<EntryView>), PathError>) -> Result<
    u32,
    PathError,
> {
    match res {
        Err(e) => Err(e),
        Ok((c, e)) => if e matches Some(d) && d.entry_type != EntryType::Directory {
            Err(PathError::NotADirectory)
        } else {
            Ok(c)
        },
    }
}

/// The value of a listing.
pub open spec fn list_view(r: Result<Vec<DirectoryEntry>, PathError>) -> Result<
    Seq<EntryView>,
    PathError,
> {
    match r {
        Ok(v) => Ok(entries_view(v@)),
        Err(e) => Err(e),
    }
}

/// Picks the cluster to list out of a resolution result.
pub fn listing_target(resolved: Result<(u32, Option<DirectoryEntry>), PathError>) -> (r: Result<
    u32,
    PathError,
>)
    ensures
        r == list_choice(resolution_view(resolved)),
{
    let (cluster, entry) = match resolved {
        Ok(res) => res,
        Err(e) => {
            return Err(e);
        },
    };
    if let Some(e) = entry {
        if !e.entry_type.is_dir() {
            return Err(PathError::NotADirectory);
        }
    }
    Ok(cluster)
}

/// Lists the directory named by a path, or the working directory.
pub struct Ls<'a, D: BlockDevice> {
    resolver: &'a PathResolver<'a, D>,
}

impl<'a, D: BlockDevice> Ls<'a, D> {
    /// The resolver of paths.
    pub closed spec fn paths(&self) -> PathResolver<'a, D> {
        *self.resolver
    }

    /// The devices read answer every read within their contents.
    pub open spec fn answers(&self) -> bool {
        self.paths().answers()
    }

    /// What `list(path, cwd)` gives when the devices answer every read within
    /// their contents.
    pub open spec fn list_spec(&self, path: Option<&str>, cwd: u32) -> Result<
        Seq<EntryView>,
        PathError,
    > {
        let target = match path {
            Some(p) => list_choice(self.paths().resolve_spec(p@, cwd)),
            None => Ok(cwd),
        };
        match target {
            Err(e) => Err(e),
            Ok(c) => match self.paths().dirs().dir_model(c) {
                Ok(es) => Ok(es),
                Err(_) => Err(PathError::NotFound),
            },
        }
    }

    pub fn new(resolver: &'a PathResolver<'a, D>) -> (r: Self)
        ensures
            r.paths() == *resolver,
    {
        Ls { resolver }
    }

    /// The entries, in on-disk order, of the directory named by `path`, or of
    /// `cwd` when there is no path. On devices that answer they are the ones
    /// the volume gives; otherwise a failed read shows as `NotFound`.
    pub fn list(&self, path: Option<&str>, cwd: u32) -> (r: Result<Vec<DirectoryEntry>, PathError>)
        ensures
            path matches Some(p) && p@.len() == 0 ==> r == Err::<Vec<DirectoryEntry>, PathError>(
                PathError::EmptyPath,
            ),
            self.answers() ==> list_view(r) == self.list_spec(path, cwd),
            r matches Ok(v) ==> self.list_spec(path, cwd) == Ok::<Seq<EntryView>, PathError>(
                entries_view(v@),
            ),
            r matches Err(e) ==> e == PathError::NotFound || self.list_spec(path, cwd) == Err::<
                Seq<EntryView>,
                PathError,
            >(e),
    {
        let cluster = match path {
            Some(p) => match listing_target(self.resolver.resolve(p, cwd)) {
                Ok(c) => c,
                Err(e) => {
                    return Err(e);
                },
            },
            None => cwd,
        };
        self.resolver.read_dir(cluster)
    }
}

} // verus!

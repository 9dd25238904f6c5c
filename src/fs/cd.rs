//! Changing the working directory.
use vstd::prelude::*;
use vstd::utf8::encode_utf8;
use crate::device::block_device::BlockDevice;
use crate::fs::directory::{DirectoryEntry, EntryType, EntryView};
use crate::fs::path::{PathError, PathResolver, all_dots, path_segments, resolution_view};

verus! {

/// Failure of a directory change.
#[derive(Debug, Clone, Copy, PartialEq, Eq, Structural)]
pub enum CdError {
    /// The path names nothing.
    NotFound,
    /// The path names a file.
    NotADirectory,
    /// The path was unusable.
    Io,
}

/// The directory a resolution result leads to: the reached cluster when no
/// entry matched, the entry's cluster for a directory, `NotADirectory` for a
/// file, `NotFound` for a missing path, `Io` for any other failure.
pub open spec fn cd_choice(res: Result<(u32, Option<EntryView>), PathError>) -> Result<u32, CdError> {
    match res {
        Err(PathError::NotFound) => Err(CdError::NotFound),
        Err(_) => Err(CdError::Io),
        Ok((c, None)) => Ok(c),
        Ok((_, Some(e))) => if e.entry_type == EntryType::Directory {
            Ok(e.start_cluster)
        } else {
            Err(CdError::NotADirectory)
        },
    }
}

/// Picks the new working cluster out of a resolution result.
pub fn cd_target(resolved: Result<(u32, Option<DirectoryEntry>), PathError>) -> (r: Result<
    u32,
    CdError,
>)
    ensures
        r == cd_choice(resolution_view(resolved)),
{
    let (cluster, entry) = match resolved {
        Ok(res) => res,
        Err(PathError::NotFound) => {
            return Err(CdError::NotFound);
        },
        Err(_) => {
            return Err(CdError::Io);
        },
    };
    match entry {
        None => Ok(cluster),
        Some(e) => {
            if e.entry_type != EntryType::Directory {
                Err(CdError::NotADirectory)
            } else {
                Ok(e.start_cluster)
            }
        },
    }
}

/// Moves the working directory along paths.
pub struct Cd<'a, D: BlockDevice> {
    resolver: &'a PathResolver<'a, D>,
}

impl<'a, D: BlockDevice> Cd<'a, D> {
    /// The resolver of paths.
    pub closed spec fn paths(&self) -> PathResolver<'a, D> {
        *self.resolver
    }

    /// The devices read answer every read within their contents.
    pub open spec fn answers(&self) -> bool {
        self.paths().answers()
    }

    /// What `cd(path, cwd)` gives when the devices answer every read within
    /// their contents.
    pub open spec fn cd_spec(&self, path: Seq<char>, cwd: u32) -> Result<u32, CdError> {
        cd_choice(self.paths().resolve_spec(path, cwd))
    }

    pub fn new(resolver: &'a PathResolver<'a, D>) -> (r: Self)
        ensures
            r.paths() == *resolver,
    {
        Cd { resolver }
    }

    /// The cluster of the directory named by `path`. On devices that answer it
    /// is the one the volume gives; otherwise a failed read shows as
    /// `NotFound`.
    pub fn cd(&self, path: &str, cwd: u32) -> (r: Result<u32, CdError>)
        ensures
            path@.len() == 0 ==> r == Err::<u32, CdError>(CdError::Io),
            self.answers() ==> r == self.cd_spec(path@, cwd),
            r is Ok ==> r == self.cd_spec(path@, cwd),
            r matches Err(e) ==> e == CdError::NotFound || r == self.cd_spec(path@, cwd),
            self.cd_spec(path@, cwd) == Err::<u32, CdError>(CdError::NotFound) ==> r == Err::<
                u32,
                CdError,
            >(CdError::NotFound),
            path@.len() > 0 && all_dots(path_segments(encode_utf8(path@))) ==> r == Ok::<
                u32,
                CdError,
            >(self.paths().start_of(path@, cwd)),
    {
        cd_target(self.resolver.resolve(path, cwd))
    }
}

} // verus!

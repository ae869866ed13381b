//! Which changes of files wait for each other: those of one file, by its
//! canonical path.

use vstd::prelude::*;

use crate::harness_types::{FileError, FileErrorCode};

verus! {

/// The key of the queue in which changes of a file wait: its canonical path, its
/// absolute path where it has no canonical one, and else the path as given.
pub open spec fn queue_key(
    path: Seq<char>,
    absolute: Result<Seq<char>, FileErrorCode>,
    canonical: Result<Seq<char>, FileErrorCode>,
) -> Seq<char> {
    match absolute {
        Ok(a) => match canonical {
            Ok(c) => c,
            Err(code) => if code == FileErrorCode::NotFound || code
                == FileErrorCode::NotSupported {
                a
            } else {
                path
            },
        },
        Err(_) => path,
    }
}

/// The text or the code of a result.
pub open spec fn path_or_code(r: Result<String, FileError>) -> Result<Seq<char>, FileErrorCode> {
    match r {
        Ok(p) => Ok(p@),
        Err(error) => Err(error.code),
    }
}

/// The key of the queue in which changes of a file wait.
pub fn mutation_queue_key(
    path: &str,
    absolute: Result<String, FileError>,
    canonical: Result<String, FileError>,
) -> (r: String)
    ensures
        r@ == queue_key(path@, path_or_code(absolute), path_or_code(canonical)),
{
    match absolute {
        Ok(a) => match canonical {
            Ok(c) => c,
            Err(error) => if error.code == FileErrorCode::NotFound || error.code
                == FileErrorCode::NotSupported {
                a
            } else {
                path.to_string()
            },
        },
        Err(_) => path.to_string(),
    }
}

} // verus!

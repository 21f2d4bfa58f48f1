//! Whether a destination can be written to.

use crate::config::host::{parent, parent_of};
use vstd::prelude::*;

verus! {

/// What is known of a path on disk.
#[derive(Debug, Clone, Copy, PartialEq, Eq, Structural)]
pub struct PlaceFact {
    pub exists: bool,
    pub is_dir: bool,
}

/// The directory in which writing to a destination is tried: the destination itself or, where it
/// does not exist yet, the directory above it.
pub open spec fn probe_place(
    path: Seq<char>,
    own: PlaceFact,
    above: PlaceFact,
) -> Result<Seq<char>, Seq<char>> {
    if own.exists {
        if own.is_dir {
            Ok(path)
        } else {
            Err("destination path is not a directory: "@ + path)
        }
    } else if parent(path) is Some && above.exists && above.is_dir {
        Ok(parent(path)->0)
    } else {
        Err("destination path does not exist: "@ + path)
    }
}

/// The model of a text or an error.
pub open spec fn result_texts(r: Result<String, String>) -> Result<Seq<char>, Seq<char>> {
    match r {
        Ok(s) => Ok(s@),
        Err(e) => Err(e@),
    }
}

/// The directory in which writing to a destination is tried. `own` is what is known of the
/// destination and `above` what is known of the directory above it.
pub fn check_destination_online(path: &str, own: PlaceFact, above: PlaceFact) -> (r: Result<
    String,
    String,
>)
    ensures
        result_texts(r) == probe_place(path@, own, above),
{
    if own.exists {
        if own.is_dir {
            return Ok(path.to_string());
        }
        let mut e = "destination path is not a directory: ".to_string();
        e.append(path);
        return Err(e);
    }
    match parent_of(path) {
        Some(up) => {
            if above.exists && above.is_dir {
                return Ok(up);
            }
        },
        None => {},
    }
    let mut e = "destination path does not exist: ".to_string();
    e.append(path);
    Err(e)
}

/// The directory that has to be writable for a destination that is a file, unless the destination
/// is a directory or has none above it.
pub fn check_file_destination_online(path: &str, own: PlaceFact) -> (r: Result<String, String>)
    ensures
        result_texts(r) == (if own.exists && own.is_dir {
            Err("destination file path is a directory"@)
        } else {
            match parent(path@) {
                Some(up) => Ok(up),
                None => Err("destination file path has no parent"@),
            }
        }),
{
    if own.exists && own.is_dir {
        return Err("destination file path is a directory".to_string());
    }
    match parent_of(path) {
        Some(up) => Ok(up),
        None => Err("destination file path has no parent".to_string()),
    }
}

} // verus!

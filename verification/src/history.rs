//! Requests for the history of files.

use crate::ids::{HgFileNodeId, HgNodeHash};
use crate::path::{split_path, MPath};
use vstd::prelude::*;

verus! {

/// The parameters that the path of a history request carries.
#[derive(Debug)]
pub struct HistoryParams {
    repo: String,
}

impl View for HistoryParams {
    type V = Seq<char>;

    closed spec fn view(&self) -> Seq<char> {
        self.repo@
    }
}

impl HistoryParams {
    /// The parameters of a request to the repository named `repo`.
    pub fn new(repo: String) -> (r: Self)
        ensures
            r@ == repo@,
    {
        HistoryParams { repo }
    }

    /// The name of the repository that the request is for.
    pub fn repo(&self) -> (r: &String)
        ensures
            r@ == self@,
    {
        &self.repo
    }
}

/// The file whose history is asked for: the textual form of its path and
/// the digest of its file node.
#[derive(Clone, Debug, PartialEq, Eq)]
pub struct Key {
    pub path: Vec<u8>,
    pub hgid: [u8; 20],
}

/// How a request for history fails.
#[derive(Clone, Copy, Debug, PartialEq, Eq, Structural, Hash)]
pub enum HistoryError {
    /// The request cannot be understood.
    BadRequest,
    /// The repository has no such file.
    NotFound,
    /// The repository failed.
    Internal,
}

impl HistoryError {
    /// The status with which the request is answered.
    pub fn status_code(&self) -> (r: u16)
        ensures
            r == match self {
                HistoryError::BadRequest => 400u16,
                HistoryError::NotFound => 404u16,
                HistoryError::Internal => 500u16,
            },
    {
        match self {
            HistoryError::BadRequest => 400,
            HistoryError::NotFound => 404,
            HistoryError::Internal => 500,
        }
    }
}

/// The file node and the path that `key` names. A key without a path is a
/// bad request.
pub fn single_key_history(key: &Key) -> (r: Result<(HgFileNodeId, MPath), HistoryError>)
    ensures
        match r {
            Ok((node, path)) => node == HgFileNodeId(HgNodeHash(key.hgid)) && path@ == split_path(
                key.path@,
            ) && split_path(key.path@).len() > 0,
            Err(e) => e == HistoryError::BadRequest && split_path(key.path@).len() == 0,
        },
{
    let node = HgFileNodeId::new(HgNodeHash::new(key.hgid));
    match MPath::new(key.path.as_slice()) {
        Some(path) => Ok((node, path)),
        None => Err(HistoryError::BadRequest),
    }
}

/// The file that the repository found, or that there is none.
pub fn file_or_not_found<T>(file: Option<T>) -> (r: Result<T, HistoryError>)
    ensures
        r == (match file {
            Some(f) => Ok::<T, HistoryError>(f),
            None => Err(HistoryError::NotFound),
        }),
{
    match file {
        Some(f) => Ok(f),
        None => Err(HistoryError::NotFound),
    }
}

} // verus!

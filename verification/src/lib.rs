//! Read-only IP-to-region lookup over an encrypted CZDB database image.

pub mod bytes;
pub mod decrypt;
pub mod format;
pub mod index;
pub mod laws;
pub mod msgpack;
pub mod region;
pub mod searcher;

use crate::format::{opened, Database};
use crate::searcher::{search_result, text_of, CzdbError, DbSearcher, IpAddress, SearchMode};
use vstd::prelude::*;

verus! {

/// A searcher for hosts that name the mode by a number and ask for
/// several addresses at once.
pub struct CzdbSearcher {
    inner: DbSearcher,
}

/// The mode that a number names: 1 names BTree, every other number
/// Memory.
pub open spec fn mode_of_number(mode: u8) -> SearchMode {
    if mode == 1 {
        SearchMode::BTree
    } else {
        SearchMode::Memory
    }
}

/// The text of one answer of a batch: the region text, or `"Error"` for an
/// address that was not given or whose lookup fails.
pub open spec fn batch_answer(db: Database, mode: SearchMode, ip: Option<IpAddress>) -> Seq<char> {
    match ip {
        Some(addr) => match search_result(db, mode, addr) {
            Ok(text) => text,
            Err(_) => "Error"@,
        },
        None => "Error"@,
    }
}

impl View for CzdbSearcher {
    type V = Database;

    closed spec fn view(&self) -> Database {
        self.inner@
    }
}

impl CzdbSearcher {
    /// The mode in which this searcher looks addresses up.
    pub closed spec fn mode(&self) -> SearchMode {
        self.inner.mode()
    }

    /// Opens a copy of the image with its key, in Memory mode.
    pub fn new(data: &[u8], key: &str) -> (r: Result<CzdbSearcher, CzdbError>)
        ensures
            match r {
                Ok(s) => opened(data@, key@, SearchMode::Memory) == Ok::<Database, CzdbError>(s@)
                    && s.mode() == SearchMode::Memory,
                Err(e) => opened(data@, key@, SearchMode::Memory) == Err::<Database, CzdbError>(e),
            },
    {
        match DbSearcher::new(vstd::slice::slice_to_vec(data), key) {
            Ok(inner) => Ok(CzdbSearcher { inner }),
            Err(e) => Err(e),
        }
    }

    /// Opens a copy of the image with its key, in the mode that `mode`
    /// names: 0 for Memory, 1 for BTree, Memory for any other number.
    pub fn new_with_mode(data: &[u8], key: &str, mode: u8) -> (r: Result<CzdbSearcher, CzdbError>)
        ensures
            match r {
                Ok(s) => opened(data@, key@, mode_of_number(mode)) == Ok::<Database, CzdbError>(s@)
                    && s.mode() == mode_of_number(mode),
                Err(e) => opened(data@, key@, mode_of_number(mode)) == Err::<Database, CzdbError>(
                    e,
                ),
            },
    {
        let search_mode = match mode {
            0 => SearchMode::Memory,
            1 => SearchMode::BTree,
            _ => SearchMode::Memory,
        };
        match DbSearcher::with_mode(vstd::slice::slice_to_vec(data), key, search_mode) {
            Ok(inner) => Ok(CzdbSearcher { inner }),
            Err(e) => Err(e),
        }
    }

    /// Looks one address up.
    pub fn search(&self, ip: &IpAddress) -> (r: Result<String, CzdbError>)
        ensures
            text_of(r) == search_result(self@, self.mode(), *ip),
    {
        self.inner.search(ip)
    }

    /// Looks several addresses up. The answers stand in the order of the
    /// addresses; an address that was not given, or whose lookup fails,
    /// is answered with `"Error"`, and the batch goes on.
    pub fn search_batch(&self, ips: Vec<Option<IpAddress>>) -> (r: Result<Vec<String>, CzdbError>)
        ensures
            r matches Ok(answers) && answers@.len() == ips@.len() && forall|i: int|
                0 <= i < ips@.len() ==> (#[trigger] answers@[i])@ == batch_answer(self@, self.mode(), ips@[i]),
    {
        let mut results: Vec<String> = Vec::new();
        let mut i: usize = 0;
        while i < ips.len()
            invariant
                i <= ips@.len(),
                results@.len() == i,
                forall|j: int|
                    0 <= j < i ==> (#[trigger] results@[j])@ == batch_answer(self@, self.mode(), ips@[j]),
            decreases ips@.len() - i,
        {
            let answer = match &ips[i] {
                Some(addr) => match self.inner.search(addr) {
                    Ok(text) => text,
                    Err(_) => "Error".to_owned(),
                },
                None => "Error".to_owned(),
            };
            results.push(answer);
            i = i + 1;
        }
        Ok(results)
    }

    /// The number of the searcher's mode: 0 for Memory, 1 for BTree.
    pub fn search_mode(&self) -> (r: u8)
        ensures
            r == match self.mode() {
                SearchMode::Memory => 0u8,
                SearchMode::BTree => 1u8,
            },
    {
        match self.inner.search_mode() {
            SearchMode::Memory => 0,
            SearchMode::BTree => 1,
        }
    }
}

} // verus!

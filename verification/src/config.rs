//! The two file-location settings a `CONFIG GET` can name: the snapshot
//! directory and the snapshot file name.

use vstd::prelude::*;

use crate::resp::eq_bytes;
use vstd::slice::slice_to_vec;
use vstd::string::StringSliceAdditionalSpecFns;

verus! {

/// The ASCII bytes of the word `dir`.
pub open spec fn w_dir() -> Seq<u8> {
    seq![100u8, 105u8, 114u8]
}

/// The ASCII bytes of the word `dbfilename`.
pub open spec fn w_dbfilename() -> Seq<u8> {
    seq![100u8, 98u8, 102u8, 105u8, 108u8, 101u8, 110u8, 97u8, 109u8, 101u8]
}

/// The view of an optional string.
pub open spec fn opt_string_view(o: Option<String>) -> Option<Seq<char>> {
    match o {
        Some(s) => Some(s@),
        None => None,
    }
}

/// The snapshot-file settings.
#[derive(Debug)]
pub struct Config {
    dir: Option<String>,
    dbfilename: Option<String>,
}

impl Config {
    /// The settings as views.
    pub closed spec fn dir_view(&self) -> Option<Seq<char>> {
        opt_string_view(self.dir)
    }

    pub closed spec fn dbfilename_view(&self) -> Option<Seq<char>> {
        opt_string_view(self.dbfilename)
    }

    /// A configuration with nothing set.
    pub fn new() -> (r: Config)
        ensures
            r.dir_view() is None,
            r.dbfilename_view() is None,
    {
        Config { dir: None, dbfilename: None }
    }

    /// Sets the snapshot directory.
    pub fn set_dir(&mut self, dir: String)
        ensures
            final(self).dir_view() == Some(dir@),
            final(self).dbfilename_view() == old(self).dbfilename_view(),
    {
        self.dir = Some(dir);
    }

    /// Sets the snapshot file name.
    pub fn set_dbfilename(&mut self, dbfilename: String)
        ensures
            final(self).dbfilename_view() == Some(dbfilename@),
            final(self).dir_view() == old(self).dir_view(),
    {
        self.dbfilename = Some(dbfilename);
    }

    /// Looks a setting up by name: `dir` and `dbfilename` answer with
    /// their setting, any other name with nothing.
    pub fn get(&self, key: &str) -> (r: Option<String>)
        ensures
            key.spec_bytes() == w_dir() ==> opt_string_view(r) == self.dir_view(),
            key.spec_bytes() == w_dbfilename() ==> opt_string_view(r) == self.dbfilename_view(),
            key.spec_bytes() != w_dir() && key.spec_bytes() != w_dbfilename() ==> r is None,
    {
        let kb: Vec<u8> = slice_to_vec(key.as_bytes());
        let dir_word = vec![100u8, 105u8, 114u8];
        let dbf_word = vec![100u8, 98u8, 102u8, 105u8, 108u8, 101u8, 110u8, 97u8, 109u8, 101u8];
        proof {
            assert(dir_word@ =~= w_dir());
            assert(dbf_word@ =~= w_dbfilename());
        }
        if eq_bytes(&kb, &dir_word) {
            match &self.dir {
                Some(s) => Some(s.as_str().to_owned()),
                None => None,
            }
        } else if eq_bytes(&kb, &dbf_word) {
            match &self.dbfilename {
                Some(s) => Some(s.as_str().to_owned()),
                None => None,
            }
        } else {
            None
        }
    }
}

} // verus!

//! Where the journal lies and where the site goes.

use vstd::prelude::*;
use std::path::Path;
use std::path::PathBuf;

verus! {

/// `std::path::PathBuf`, of which nothing is known but that it is a value.
#[verifier::external_type_specification]
#[verifier::external_body]
pub struct ExPathBuf(PathBuf);

/// `std::path::Path`, of which nothing is known but that it is a value.
#[verifier::external_type_specification]
#[verifier::external_body]
pub struct ExPath(Path);

/// The path that a `PathBuf` holds.
pub uninterp spec fn path_in(buf: PathBuf) -> &'static Path;

/// The path that a `PathBuf` holds. This is `PathBuf::as_path`, which
/// borrows the path and changes nothing.
#[verifier::external_body]
fn as_path(buf: &PathBuf) -> (r: &Path)
    ensures
        r == path_in(*buf),
{
    buf.as_path()
}

/// `PathBuf::clone` gives a path equal to the one that was cloned.
pub assume_specification[ <PathBuf as Clone>::clone ](buf: &PathBuf) -> (r: PathBuf)
    ensures
        r == *buf,
;

/// `PathBuf::eq` compares two paths; nothing is stated of its result.
pub assume_specification[ <PathBuf as PartialEq>::eq ](a: &PathBuf, b: &PathBuf) -> (r: bool);

/// The path that `buf` holds, if there is one.
pub open spec fn path_in_option(buf: Option<PathBuf>) -> Option<&'static Path> {
    match buf {
        Some(b) => Some(path_in(b)),
        None => None,
    }
}

/// The paths that the commands work on.
#[derive(Clone, Debug, PartialEq, Eq)]
pub struct Config {
    data_dir: PathBuf,
    hatena_blog_data_file: PathBuf,
    link_completion_rules_file: Option<PathBuf>,
    out_dir: Option<PathBuf>,
}

impl Config {
    /// The directory of the journal, as it was given.
    pub closed spec fn spec_data_dir(&self) -> PathBuf {
        self.data_dir
    }

    /// The file of the data of the remote blog, as it was given.
    pub closed spec fn spec_hatena_blog_data_file(&self) -> PathBuf {
        self.hatena_blog_data_file
    }

    /// The file of the rules for the completion of links, as it was given.
    pub closed spec fn spec_link_completion_rules_file(&self) -> Option<PathBuf> {
        self.link_completion_rules_file
    }

    /// The directory of the site, as it was given.
    pub closed spec fn spec_out_dir(&self) -> Option<PathBuf> {
        self.out_dir
    }

    /// The configuration of the given paths.
    pub fn new(
        data_dir: PathBuf,
        hatena_blog_data_file: PathBuf,
        link_completion_rules_file: Option<PathBuf>,
        out_dir: Option<PathBuf>,
    ) -> (r: Config)
        ensures
            r.spec_data_dir() == data_dir,
            r.spec_hatena_blog_data_file() == hatena_blog_data_file,
            r.spec_link_completion_rules_file() == link_completion_rules_file,
            r.spec_out_dir() == out_dir,
    {
        Config { data_dir, hatena_blog_data_file, link_completion_rules_file, out_dir }
    }

    /// The directory of the journal.
    pub fn data_dir(&self) -> (r: &Path)
        ensures
            r == path_in(self.spec_data_dir()),
    {
        as_path(&self.data_dir)
    }

    /// The file of the data of the remote blog.
    pub fn hatena_blog_data_file(&self) -> (r: &Path)
        ensures
            r == path_in(self.spec_hatena_blog_data_file()),
    {
        as_path(&self.hatena_blog_data_file)
    }

    /// The file of the rules for the completion of links, if one is set.
    pub fn link_completion_rules_file(&self) -> (r: Option<&Path>)
        ensures
            r == path_in_option(self.spec_link_completion_rules_file()),
    {
        match &self.link_completion_rules_file {
            Some(buf) => Some(as_path(buf)),
            None => None,
        }
    }

    /// The directory of the site, if one is set.
    pub fn out_dir(&self) -> (r: Option<&Path>)
        ensures
            r == path_in_option(self.spec_out_dir()),
    {
        match &self.out_dir {
            Some(buf) => Some(as_path(buf)),
            None => None,
        }
    }
}

} // verus!

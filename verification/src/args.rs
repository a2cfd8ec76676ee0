//! What the user asked for, and the checks that are made of it before any
//! work starts.

use vstd::prelude::*;
use crate::errors::InputError;
use crate::matcher::{matcher_name, matcher_named, Matcher};

verus! {

/// What a walk through a repository needs to know.
#[derive(Debug)]
pub struct CollectArgs {
    pub branch: String,
    pub matcher: String,
    pub path: String,
    pub points_path: Option<String>,
}

/// What a run over collected changes needs to know.
#[derive(Debug)]
pub struct TotalArgs {
    pub paths: Option<Vec<String>>,
    pub points_path: Option<String>,
}

/// The words of the error for a matcher that is not known.
pub open spec fn unknown_matcher_text() -> Seq<char> {
    "The matcher must be one of: v1, jira."@
}

/// The words of the error for a run without input files.
pub open spec fn no_input_text() -> Seq<char> {
    "You must specify at least one input file path."@
}

impl CollectArgs {
    /// What is used where the user says nothing: the branch `master` of the
    /// repository in the current directory, the scheme `v1`, and no points.
    pub fn defaults() -> (args: CollectArgs)
        ensures
            args.branch@ == "master"@,
            args.matcher@ == matcher_name(Matcher::V1),
            args.path@ == "."@,
            args.points_path is None,
    {
        CollectArgs {
            branch: "master".to_owned(),
            matcher: "v1".to_owned(),
            path: ".".to_owned(),
            points_path: None,
        }
    }

    /// The scheme that was asked for. A name that stands for no scheme is an
    /// input error, found here, before any commit is read.
    pub fn scheme(&self) -> (result: Result<Matcher, InputError>)
        ensures
            match result {
                Ok(matcher) => matcher_named(self.matcher@) == Some(matcher),
                Err(error) => matcher_named(self.matcher@) is None && error@
                    == unknown_matcher_text(),
            },
    {
        match Matcher::from_name(self.matcher.as_str()) {
            Some(matcher) => Ok(matcher),
            None => Err(InputError::new("The matcher must be one of: v1, jira.")),
        }
    }
}

impl TotalArgs {
    /// The arguments of a run over these input files. An empty list of files
    /// is the same as none.
    pub fn new(paths: Vec<String>, points_path: Option<String>) -> (args: TotalArgs)
        ensures
            args.points_path == points_path,
            args.paths == if paths@.len() > 0 {
                Some(paths)
            } else {
                None::<Vec<String>>
            },
    {
        TotalArgs { paths: if paths.len() > 0 { Some(paths) } else { None }, points_path }
    }

    /// The input files of the run. That there are none is an input error,
    /// found here, before any file is read.
    pub fn input_paths(&self) -> (result: Result<&Vec<String>, InputError>)
        ensures
            match result {
                Ok(paths) => self.paths == Some(*paths),
                Err(error) => self.paths is None && error@ == no_input_text(),
            },
    {
        match &self.paths {
            Some(paths) => Ok(paths),
            None => Err(InputError::new("You must specify at least one input file path.")),
        }
    }
}

} // verus!

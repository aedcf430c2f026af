//! The command surface: one download of a single URL, or a concurrent
//! batch, each with optional cookie, headers, destination directory and
//! file names, and an optional resume flag.
//!
//! These types carry the already-parsed arguments; `to_request`
//! normalizes them into the shape the coordinator takes.

use vstd::prelude::*;

verus! {

/// The parsed command line: exactly one subcommand.
#[derive(Debug)]
pub struct Cli {
    pub commands: Commands,
}

/// The two subcommands.
#[derive(Debug)]
pub enum Commands {
    /// Download one URL.
    Single {
        resume: Option<bool>,
        cookie: Option<String>,
        header_args: Option<Vec<String>>,
        file_path: Option<String>,
        file_name: Option<String>,
        url: String,
    },
    /// Download many URLs concurrently.
    Multi {
        resume: Option<bool>,
        cookie: Option<String>,
        header_args: Option<Vec<String>>,
        file_path: Option<String>,
        file_names: Option<Vec<String>>,
        urls: Vec<String>,
    },
}

/// Whether a resume flag asks for resume semantics: only an explicit
/// `true` does; an absent flag or an explicit `false` does not.
pub open spec fn resume_requested(flag: Option<bool>) -> bool {
    flag == Some(true)
}

/// A command normalized for the coordinator: the URLs to process, the
/// optional destination lists, the transfer options, and the mode.
#[derive(Debug)]
pub struct DownloadRequest {
    pub urls: Vec<String>,
    pub file_paths: Option<Vec<String>>,
    pub file_names: Option<Vec<String>>,
    pub cookie: Option<String>,
    pub header_args: Option<Vec<String>>,
    pub resume: bool,
    pub multi: bool,
}

impl Commands {
    /// Normalize a subcommand: a single download becomes a one-element
    /// batch, and a shared destination directory becomes a one-element
    /// list, which the coordinator applies to the whole batch.
    pub fn to_request(self) -> (r: DownloadRequest)
        ensures
            self matches Commands::Single { resume, cookie, header_args, file_path, file_name, url }
                ==> {
                &&& !r.multi
                &&& r.resume == resume_requested(resume)
                &&& r.urls.deep_view() == seq![url@]
                &&& r.file_paths.deep_view() == match file_path {
                    Some(p) => Some(seq![p@]),
                    None => None::<Seq<Seq<char>>>,
                }
                &&& r.file_names.deep_view() == match file_name {
                    Some(nm) => Some(seq![nm@]),
                    None => None::<Seq<Seq<char>>>,
                }
                &&& r.cookie == cookie
                &&& r.header_args == header_args
            },
            self matches Commands::Multi { resume, cookie, header_args, file_path, file_names, urls }
                ==> {
                &&& r.multi
                &&& r.resume == resume_requested(resume)
                &&& r.urls == urls
                &&& r.file_paths.deep_view() == match file_path {
                    Some(p) => Some(seq![p@]),
                    None => None::<Seq<Seq<char>>>,
                }
                &&& r.file_names == file_names
                &&& r.cookie == cookie
                &&& r.header_args == header_args
            },
    {
        match self {
            Commands::Single { resume, cookie, header_args, file_path, file_name, url } => {
                let mut urls: Vec<String> = Vec::new();
                urls.push(url);
                let file_paths: Option<Vec<String>> = match file_path {
                    Some(p) => {
                        let mut ps: Vec<String> = Vec::new();
                        ps.push(p);
                        Some(ps)
                    },
                    None => None,
                };
                let file_names: Option<Vec<String>> = match file_name {
                    Some(nm) => {
                        let mut ns: Vec<String> = Vec::new();
                        ns.push(nm);
                        Some(ns)
                    },
                    None => None,
                };
                let resume = match resume {
                    Some(true) => true,
                    _ => false,
                };
                DownloadRequest {
                    urls,
                    file_paths,
                    file_names,
                    cookie,
                    header_args,
                    resume,
                    multi: false,
                }
            },
            Commands::Multi { resume, cookie, header_args, file_path, file_names, urls } => {
                let file_paths: Option<Vec<String>> = match file_path {
                    Some(p) => {
                        let mut ps: Vec<String> = Vec::new();
                        ps.push(p);
                        Some(ps)
                    },
                    None => None,
                };
                let resume = match resume {
                    Some(true) => true,
                    _ => false,
                };
                DownloadRequest {
                    urls,
                    file_paths,
                    file_names,
                    cookie,
                    header_args,
                    resume,
                    multi: true,
                }
            },
        }
    }
}

} // verus!

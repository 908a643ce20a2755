//! The start of a session: what the command line asks for, which files of a
//! directory are looked at, and the session that the files found begin.

use crate::app::{App, AppView, Status};
use crate::arrange::arranged;
use crate::page::{all_accepted, load_fails_with, loaded_pages, PageError, PageList, SourceFile};
use vstd::prelude::*;

verus! {

/// What the command line asks for.
#[derive(Debug, PartialEq, Eq)]
pub struct Cli {
    /// The key of the front matter under which the ordering value stands.
    pub key: String,
    /// The directory whose documents are ordered.
    pub target_dir: String,
    /// Whether the documents of the directories below are ordered too.
    pub recursive: bool,
}

/// What to do with an entry of a directory.
#[derive(Clone, Copy, Debug, PartialEq, Eq)]
pub enum Visit {
    /// Read the file: it may be a document.
    Load,
    /// Go through the entries of the directory.
    Descend,
    /// Pass over the entry.
    Skip,
}

/// What to do with an entry of a directory: a file with the extension `html`
/// or `md` is read; a directory is gone through where the search is
/// recursive; all else is passed over.
pub open spec fn visit_of(
    recursive: bool,
    is_file: bool,
    is_dir: bool,
    extension: Option<Seq<char>>,
) -> Visit {
    if is_file && (extension == Some("html"@) || extension == Some("md"@)) {
        Visit::Load
    } else if recursive && is_dir {
        Visit::Descend
    } else {
        Visit::Skip
    }
}

/// The extension as the model has it.
pub open spec fn extension_view(extension: Option<&str>) -> Option<Seq<char>> {
    match extension {
        Some(text) => Some(text@),
        None => None,
    }
}

impl Cli {
    /// Says what to do with an entry of a directory, given whether it is a
    /// file, whether it is a directory, and the extension of its name.
    pub fn visit(&self, is_file: bool, is_dir: bool, extension: Option<&str>) -> (r: Visit)
        ensures
            r == visit_of(self.recursive, is_file, is_dir, extension_view(extension)),
    {
        let is_page = match extension {
            Some(text) => {
                let text = text.to_owned();
                text == "html".to_owned() || text == "md".to_owned()
            },
            None => false,
        };
        if is_file && is_page {
            Visit::Load
        } else if self.recursive && is_dir {
            Visit::Descend
        } else {
            Visit::Skip
        }
    }

    /// Begins the session on the files found: the list is loaded from them
    /// under the key of the command line, and the session starts on it with the
    /// first document selected.
    pub fn run(&self, files: &Vec<SourceFile>) -> (r: Result<App, PageError>)
        requires
            files@.len() <= i64::MAX,
        ensures
            match r {
                Ok(app) => {
                    &&& all_accepted(files@, self.key@)
                    &&& app.wf()
                    &&& app@ == (AppView {
                        pages: arranged(loaded_pages(files@, self.key@)),
                        key: self.key@,
                        selected: 0,
                        current: Status::Unpicked,
                        previous: Status::Unpicked,
                    })
                },
                Err(error) => load_fails_with(files@, self.key@, error),
            },
    {
        match PageList::try_new(self.key.as_str(), files) {
            Ok(page_list) => Ok(App::new(page_list)),
            Err(error) => Err(error),
        }
    }
}

} // verus!

//! What the commands of the program decide before they read or write
//! anything.

pub mod build_html;
pub mod build_json;
pub mod sitemap_xml;

use vstd::prelude::*;
use crate::data::date::Date;

verus! {

/// What a build is to do.
#[derive(Clone, Copy, Debug, PartialEq, Eq)]
pub struct BuildPlan {
    /// The records are to be written.
    pub run_json: bool,
    /// The pages are to be written.
    pub run_html: bool,
    /// The stored configuration is to be read first.
    pub need_config: bool,
}

/// What a build is to do. It writes what was asked for, and both the
/// records and the pages where neither was asked for. It reads the stored
/// configuration where no output directory was given, or where the records
/// are to be written and no data directory was given.
pub fn build_plan(json: bool, html: bool, has_data_dir: bool, has_out_dir: bool) -> (r: BuildPlan)
    ensures
        r.run_json == (json || !html),
        r.run_html == (html || !json),
        r.need_config == (!has_out_dir || (r.run_json && !has_data_dir)),
{
    let run_json = json || !html;
    let run_html = html || !json;
    BuildPlan { run_json, run_html, need_config: !has_out_dir || (run_json && !has_data_dir) }
}

/// What can be done with the remote blog.
#[allow(inconsistent_fields)]
pub enum HatenaBlogSubcommand {
    /// Shows what differs between the journal and the remote blog.
    Diff {
        /// The date of the entry, or none for all entries.
        date: Option<String>,
    },
    /// Fetches the entries of the remote blog.
    Download {
        /// Only the file of the data is to be updated.
        data_file_only: bool,
        /// The date of the entry, or none for all entries.
        date: Option<Date>,
    },
    /// Lists the entries of the remote blog.
    List,
    /// Sends entries to the remote blog.
    Upload {
        /// The date of the entry, or none for all entries.
        date: Option<Date>,
        /// The entry is to be sent as a draft.
        draft: bool,
        /// Each entry is to be confirmed before it is sent.
        interactive: bool,
    },
    /// Shows an entry of the remote blog.
    View {
        /// The text of the entry is to be shown.
        content: bool,
        /// The date of the entry.
        date: Date,
        /// The name of the remote blog.
        hatena_blog_id: String,
        /// What is known of the entry is to be shown.
        meta: bool,
        /// The entry is to be opened in the browser.
        web: bool,
    },
}

} // verus!

use vstd::prelude::*;

use crate::paths::{path_join, path_push};

verus! {

/// Where the shell keeps its data, and how often the history worker rests.
pub struct Config {
    /// Rest between two scans of the history directory, in milliseconds.
    pub data_refresh_rest_millis: u64,
    pub data_dir: String,
}

impl Config {
    /// The configuration for a user whose home directory is `home`: data under
    /// `home/.rush`, and a rest of 250 milliseconds.
    pub fn with_home(home: &String) -> (c: Config)
        ensures
            c.data_refresh_rest_millis == 250,
            c.data_dir@ == path_join(home@, ".rush"@),
    {
        Config { data_refresh_rest_millis: 250, data_dir: Self::data_dir(home) }
    }

    /// The data directory of a user whose home directory is `home`.
    pub fn data_dir(home: &String) -> (d: String)
        ensures
            d@ == path_join(home@, ".rush"@),
    {
        path_push(home, ".rush")
    }

    /// The directory that holds the history files.
    pub fn hist_dir(&self) -> (d: String)
        ensures
            d@ == path_join(self.data_dir@, "history"@),
    {
        path_push(&self.data_dir, "history")
    }
}

} // verus!

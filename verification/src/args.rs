use vstd::prelude::*;

verus! {

/// The run's configuration, as the command line supplies it. Parsing and
/// defaulting happen outside this crate; the values arrive here as plain
/// strings and a flag.
pub struct Args {
    /// Years to download, one fetch job each.
    pub years: Vec<String>,
    /// API page size, passed through verbatim as a query parameter.
    pub page_size: String,
    /// Directory the output files are created under.
    pub output_dir: String,
    /// API key, appended to every request URL.
    pub api_key: String,
    /// Write delimited rows instead of plain text.
    pub csv: bool,
}

} // verus!

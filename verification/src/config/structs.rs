//! The settings of a run.
use vstd::prelude::*;

use crate::network::response::HttpVersion;
use crate::network::utils::DataType;
use std::time::Duration;

verus! {

/// Everything a run is configured with.
pub struct Config {
    /// The urls to check (from a request file: the one url it describes).
    pub urls: Vec<String>,
    /// The methods to check parameters with.
    pub methods: Vec<String>,
    /// The file with parameter names; empty to read them from stdin.
    pub wordlist: String,
    /// Parameters checked with fixed values, like `admin` with `true`, `1`, `false`.
    pub custom_parameters: Vec<(String, Vec<String>)>,
    /// Proxy url; empty for none.
    pub proxy: String,
    /// Proxy to send the found parameters through at the end; empty for none.
    pub replay_proxy: String,
    /// Whether the replay sends all found parameters in one request.
    pub replay_once: bool,
    /// The output file; empty for none.
    pub output_file: String,
    /// Where requests and responses with found parameters are saved; empty for nowhere.
    pub save_responses: String,
    /// `standart`, `json`, `url` or `request`.
    pub output_format: String,
    /// Whether the output file is appended to.
    pub append: bool,
    /// Whether url-method pairs without found parameters are left out of the output file.
    pub remove_empty: bool,
    /// Whether pages over the size limit are searched anyway.
    pub force: bool,
    /// Whether only parameters that change different parts of a page are reported.
    pub strict: bool,
    pub disable_progress_bar: bool,
    pub progress_bar_len: usize,
    pub follow_redirects: bool,
    /// Print the request and the response, and stop.
    pub test: bool,
    /// 0: only errors and output, 1: progress and findings, 2: every response change.
    pub verbose: usize,
    /// How many requests learn how the page behaves.
    pub learn_requests_count: usize,
    /// Concurrent requests per url.
    pub concurrency: usize,
    /// Concurrent url checks; 0 runs everything in parallel.
    pub workers: usize,
    /// Request timeout in seconds.
    pub timeout: usize,
    /// How many times the search is repeated with the found parameters added.
    pub recursion_depth: usize,
    /// Whether found parameters are checked once more.
    pub verify: bool,
    /// Whether only reflected parameters are searched for.
    pub reflected_only: bool,
    pub http_version: Option<HttpVersion>,
    pub template: Option<String>,
    pub joiner: Option<String>,
    /// Whether queries are percent-encoded.
    pub encode: bool,
    /// Whether parameters with fixed values are left out.
    pub disable_custom_parameters: bool,
    /// Whether urls of one host are checked one after another.
    pub one_worker_per_host: bool,
    /// Whether parameters go into the body where they would go into the query, and back.
    pub invert: bool,
    /// Whether headers are searched for instead of parameters.
    pub headers_discovery: bool,
    /// The request body, with `%s` where the parameters go.
    pub body: String,
    /// The pause before each request.
    pub delay: Duration,
    pub custom_headers: Vec<(String, String)>,
    pub data_type: Option<DataType>,
    /// Parameters per request; guessed when `None`.
    pub max: Option<usize>,
    pub disable_colors: bool,
    pub disable_trustdns: bool,
    /// Whether responses with binary content types are searched too.
    pub check_binary: bool,
}

} // verus!

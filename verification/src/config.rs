//! Where the drawing is read from and written to.

use vstd::prelude::*;

verus! {

/// The files of one run: the topology that is read, and the page that is written.
#[derive(Debug)]
pub struct Config {
    pub html_path: String,
    pub xml_path: String,
}

impl Config {
    pub fn new(html_path: String, xml_path: String) -> (r: Config)
        ensures
            r.html_path == html_path,
            r.xml_path == xml_path,
    {
        Config { html_path, xml_path }
    }
}

} // verus!

//! The command surface: the four workspace operations and project
//! creation, as plain data.  Argument parsing itself lives outside the
//! library; these values are what it hands over.
use vstd::prelude::*;

verus! {

#[derive(Debug, Clone)]
pub enum Commands {
    Create { project: String, lib: String, bin: String },
    Add { deps: Vec<String>, features: Vec<String>, to: String },
    Remove { deps: Vec<String>, from: String },
    List,
    Sync { to: String },
}

#[derive(Debug, Clone)]
pub struct Cli {
    pub cmd: Commands,
}

} // verus!

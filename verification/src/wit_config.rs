use vstd::prelude::*;

verus! {

/// Settings for the generation of WIT files.
#[derive(Debug)]
pub struct WitFileConfig {
    pub version: String,
    pub minimaize: bool,
    /// The services to generate. Nothing in this library reads the fields of
    /// this struct yet; it holds settings as they are read.
    pub allowed_service: Vec<String>,
    /// The interfaces meant to serve as arguments and results, so that
    /// functions using other types could be left out. Nothing in this library
    /// reads this field yet.
    pub allowed_interfaces: Vec<String>,
    pub allowed_functions: Vec<String>,
    /// Methods of resources that need a copy, set by hand.
    pub copy_function_list: Vec<String>,
}

} // verus!

//! Version bookkeeping: installed versions and updates the user ignored.

use vstd::prelude::*;

verus! {

/// The installed model and dictionary versions and the ignored updates.
#[derive(Debug)]
pub struct AppMetadata {
    pub current_model_version: String,
    pub current_dict_version: String,
    pub ignored_app_version: Option<String>,
    pub ignored_model_version: Option<String>,
    pub last_update_check: u64,
}

impl Default for AppMetadata {
    fn default() -> (r: Self)
        ensures
            r.current_model_version@ == "0.0.0"@,
            r.current_dict_version@ == "0.0.0"@,
            r.ignored_app_version is None,
            r.ignored_model_version is None,
            r.last_update_check == 0,
    {
        AppMetadata {
            current_model_version: String::from_str("0.0.0"),
            current_dict_version: String::from_str("0.0.0"),
            ignored_app_version: None,
            ignored_model_version: None,
            last_update_check: 0,
        }
    }
}

} // verus!

//! Switching the model preset.
use vstd::prelude::*;

verus! {

/// What follows once a preset was switched to.
#[derive(Debug, Clone, Copy, PartialEq, Eq, Structural)]
pub enum PresetPlan {
    /// Its model is there; the directory is configured.
    UseInstalled,
    /// Its model is there, and the directory is configured; then the download is
    /// gone through, and the directory is configured again.
    RecheckInstalled,
    /// Its model is downloaded; the directory is configured after that.
    Download,
}

/// What follows once a preset was switched to: a model that is there is used,
/// and downloaded again only where that is asked for; a missing one is
/// downloaded.
pub fn after_switch(ready: bool, download: bool) -> (r: PresetPlan)
    ensures
        r == (if !ready {
            PresetPlan::Download
        } else if download {
            PresetPlan::RecheckInstalled
        } else {
            PresetPlan::UseInstalled
        }),
{
    if ready {
        if !download {
            return PresetPlan::UseInstalled;
        }
        PresetPlan::RecheckInstalled
    } else {
        PresetPlan::Download
    }
}

/// The model path as it is listed.
pub fn shown_model_path(model_path: Option<String>) -> (r: String)
    ensures
        r@ == (match model_path {
            Some(p) => p@,
            None => "(default directory)"@,
        }),
{
    match model_path {
        Some(p) => p,
        None => "(default directory)".to_owned(),
    }
}

}

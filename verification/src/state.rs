//! What the running application holds between commands.
use vstd::prelude::*;
use std::sync::Mutex;
use crate::model::AppConfig;

verus! {

#[verifier::external_type_specification]
#[verifier::external_body]
#[verifier::reject_recursive_types(T)]
pub struct ExMutex<T: ?Sized>(std::sync::Mutex<T>);

#[verifier::external_type_specification]
#[verifier::external_body]
pub struct ExRecommendedWatcher(notify::RecommendedWatcher);

/// The watcher of the task roots, when one runs; dropping it ends the watch.
pub type WatcherHandle = Option<notify::RecommendedWatcher>;

/// The state shared by the commands: the configuration in force, the watcher of its roots, and
/// a problem met at start-up that could not be shown yet (it is taken once, when the window is up).
pub struct AppState {
    pub config: Mutex<AppConfig>,
    pub watcher: Mutex<WatcherHandle>,
    pub startup_warning: Mutex<Option<String>>,
}

} // verus!

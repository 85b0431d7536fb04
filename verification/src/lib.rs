pub mod dates;
pub mod explorer;
pub mod icons;
pub mod ledger;
pub mod listing;
pub mod model;
pub mod moving;
pub mod naming;
pub mod paths;
pub mod progress;
pub mod scan;
pub mod template;
pub mod text;
pub mod walk;
pub mod watch;
pub mod state;
pub mod settings;

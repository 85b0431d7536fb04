//! What the settings ask of the window and of the global hotkey.
use vstd::prelude::*;
use crate::model::AppConfig;
use crate::text::{chars_of, trim_chars, trimmed, concat};

verus! {

/// Whether a hotkey is to be registered: the setting holds more than white space. A blank
/// setting only clears the hotkeys registered before.
pub fn hotkey_wanted(hotkey: &str) -> (r: bool)
    ensures
        r == (trimmed(hotkey@).len() > 0),
{
    let cs = chars_of(hotkey);
    trim_chars(&cs).len() > 0
}

/// The window title and tray tooltip that a display name asks for.
#[derive(Clone, Debug)]
pub struct TitleChange {
    pub title: String,
    /// `None` removes the tooltip (the display name is empty).
    pub tooltip: Option<String>,
}

/// The change that the configuration's display name asks for: none when it is unset; else the
/// name as the window title, and as the tray tooltip unless it is empty.
pub fn display_name_change(config: &AppConfig) -> (r: Option<TitleChange>)
    ensures
        config.display_name is None <==> r is None,
        r matches Some(c) ==> config.display_name matches Some(n) && c.title@ == n@
            && (c.tooltip is None <==> n@.len() == 0)
            && (c.tooltip matches Some(t) ==> t@ == n@),
{
    match &config.display_name {
        None => None,
        Some(name) => {
            let tooltip = if name.as_str().is_empty() {
                None
            } else {
                Some(name.clone())
            };
            Some(TitleChange { title: name.clone(), tooltip })
        },
    }
}

pub open spec fn bad_hotkey_message(hotkey: Seq<char>) -> Seq<char> {
    "ホットキーの形式が不正です: "@ + hotkey
}

/// The error for a hotkey setting that does not read as a shortcut.
pub fn bad_hotkey(hotkey: &str) -> (r: String)
    ensures
        r@ == bad_hotkey_message(hotkey@),
{
    concat("ホットキーの形式が不正です: ", hotkey)
}

pub open spec fn startup_hotkey_message(error: Seq<char>) -> Seq<char> {
    "ホットキーを登録できませんでした: "@ + error
}

/// The warning kept for the window when the hotkey could not be registered at start-up.
pub fn startup_hotkey_warning(error: &str) -> (r: String)
    ensures
        r@ == startup_hotkey_message(error@),
{
    concat("ホットキーを登録できませんでした: ", error)
}

pub open spec fn saved_hotkey_message(error: Seq<char>) -> Seq<char> {
    "設定は保存しましたが、ホットキーを登録できませんでした: "@ + error
}

/// The warning returned when the settings were saved but the hotkey could not be registered:
/// the other settings are kept all the same.
pub fn saved_hotkey_warning(error: &str) -> (r: String)
    ensures
        r@ == saved_hotkey_message(error@),
{
    concat("設定は保存しましたが、ホットキーを登録できませんでした: ", error)
}

} // verus!

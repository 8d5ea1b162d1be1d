//! The "new" and "save" items of the file menu: what is registered, where, and with which
//! platform-resolved shortcut. Activating them runs the same bodies as the commands.
use vstd::prelude::*;
use crate::menu::{
    FILE_MENU_LABEL, MenuItemSpec, MenuPath, MenuPlacement, chord_view, ItemSpecView,
};

verus! {

/// The registrant of the document items.
pub const OWNER: &'static str = "document-session";

/// The identifier of "new".
pub const NEW_ITEM_ID: &'static str = "document-session.new";

/// The identifier of "save".
pub const SAVE_ITEM_ID: &'static str = "document-session.save";

/// The label of "new".
pub const NEW_LABEL: &'static str = "新規";

/// The label of "save".
pub const SAVE_LABEL: &'static str = "保存";

/// The shortcut of "new", spelled for the platform.
pub fn new_accelerator_spelling(placement: MenuPlacement) -> (r: &'static str)
    ensures
        r@ == (if placement == MenuPlacement::ApplicationWide {
            "Cmd+N"@
        } else {
            "Ctrl+N"@
        }),
{
    match placement {
        MenuPlacement::ApplicationWide => "Cmd+N",
        MenuPlacement::PerWindow => "Ctrl+N",
    }
}

/// The shortcut of "save", spelled for the platform.
pub fn save_accelerator_spelling(placement: MenuPlacement) -> (r: &'static str)
    ensures
        r@ == (if placement == MenuPlacement::ApplicationWide {
            "Cmd+S"@
        } else {
            "Ctrl+S"@
        }),
{
    match placement {
        MenuPlacement::ApplicationWide => "Cmd+S",
        MenuPlacement::PerWindow => "Ctrl+S",
    }
}

/// The submenu of both items: the file menu (where "open" and, off macOS, "quit" are).
pub fn document_menu_path() -> (r: MenuPath)
    ensures
        r@ == seq![FILE_MENU_LABEL@],
{
    crate::menu::builtin_quit_path(MenuPlacement::PerWindow)
}

/// The registration of "new" with its shortcut as the shortcut parser read it.
pub fn new_item_spec<H, E>(handler: H, chord: Result<String, String>) -> (r: MenuItemSpec<H, E>)
    ensures
        r@ == (
            OWNER@,
            NEW_ITEM_ID@,
            seq![FILE_MENU_LABEL@],
            NEW_LABEL@,
            chord_view(Some(chord)),
            None::<E>,
            handler,
        ),
{
    MenuItemSpec::new(OWNER, NEW_ITEM_ID, document_menu_path(), NEW_LABEL, handler).with_accelerator(
        chord,
    )
}

/// The registration of "save" with its shortcut as the shortcut parser read it.
pub fn save_item_spec<H, E>(handler: H, chord: Result<String, String>) -> (r: MenuItemSpec<H, E>)
    ensures
        r@ == (
            OWNER@,
            SAVE_ITEM_ID@,
            seq![FILE_MENU_LABEL@],
            SAVE_LABEL@,
            chord_view(Some(chord)),
            None::<E>,
            handler,
        ),
{
    MenuItemSpec::new(OWNER, SAVE_ITEM_ID, document_menu_path(), SAVE_LABEL, handler).with_accelerator(
        chord,
    )
}

} // verus!

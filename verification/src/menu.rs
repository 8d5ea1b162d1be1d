//! The menu registry and the platform differences of menus: features register items at a
//! position, the model keeps every top-level entry a submenu, a selection is routed to the
//! registrant with the target window, and enablement is computed per target window.
use vstd::prelude::*;
use vstd::multiset::Multiset;
use crate::ports::WindowLabel;
use crate::text::{
    join, join_strings, lemma_text_le_antisymmetric, lemma_text_le_total, lemma_text_le_transitive, sorted, str_equal,
    text_le, text_le_exec, text_sorted, trim, trimmed, views,
};

verus! {

/// Where menus are placed; the only place where platforms differ.
#[derive(Debug, Clone, Copy, PartialEq, Eq, Structural)]
pub enum MenuPlacement {
    /// One menu for the whole application (macOS); every top-level entry is a submenu and the
    /// first submenu folds into the application menu.
    ApplicationWide,
    /// One menu per window (Windows, Linux).
    PerWindow,
}

/// The application submenu (macOS).
pub const APPLICATION_MENU_LABEL: &'static str = "jxcel";

/// The file submenu.
pub const FILE_MENU_LABEL: &'static str = "ファイル";

/// Label of the built-in quit item.
pub const QUIT_LABEL: &'static str = "終了";

/// Registrant of the built-in items.
pub const BUILTIN_OWNER: &'static str = "app-shell";

/// Identifier of the built-in quit item.
pub const QUIT_ITEM_ID: &'static str = "app-shell.quit";

/// The conventional shortcut of the quit item, spelled for the platform.
pub fn quit_accelerator_spelling(placement: MenuPlacement) -> (r: &'static str)
    ensures
        r@ == (if placement == MenuPlacement::ApplicationWide {
            "Cmd+Q"@
        } else {
            "Ctrl+Q"@
        }),
{
    match placement {
        MenuPlacement::ApplicationWide => "Cmd+Q",
        MenuPlacement::PerWindow => "Ctrl+Q",
    }
}

// ---------------------------------------------------------------------------
// Positions
// ---------------------------------------------------------------------------

/// Why a menu position is invalid.
#[derive(Debug, Clone, Copy, PartialEq, Eq, Structural)]
pub enum MenuPathError {
    /// The position is empty: a lone item cannot stand at the top level.
    BareTopLevelItem,
    /// A submenu name is empty or only whitespace.
    EmptySegment,
}

impl MenuPathError {
    /// The text of the error.
    pub fn describe(&self) -> (r: &'static str)
        ensures
            r@ == (match self {
                MenuPathError::BareTopLevelItem => "メニュー項目の位置が空である。トップレベルには部分メニューしか置けず、単独の項目は macOS では無視される"@,
                MenuPathError::EmptySegment => "部分メニューの名前が空である"@,
            }),
    {
        match self {
            MenuPathError::BareTopLevelItem => "メニュー項目の位置が空である。トップレベルには部分メニューしか置けず、単独の項目は macOS では無視される",
            MenuPathError::EmptySegment => "部分メニューの名前が空である",
        }
    }
}

/// The views of a slice of string slices.
pub open spec fn str_views(s: Seq<&str>) -> Seq<Seq<char>> {
    s.map_values(|x: &str| x@)
}

/// Whether every name is non-blank.
pub open spec fn all_named(segments: Seq<Seq<char>>) -> bool {
    forall|i: int| 0 <= i < segments.len() ==> #[trigger] trim(segments[i]).len() > 0
}

/// The position of a menu item: the first submenu is at the top level, the rest are
/// nested submenus. A position is never empty and never holds a blank name.
#[derive(Debug, PartialEq, Eq)]
pub struct MenuPath {
    segments: Vec<String>,
}

impl View for MenuPath {
    type V = Seq<Seq<char>>;

    closed spec fn view(&self) -> Seq<Seq<char>> {
        views(self.segments@)
    }
}

impl MenuPath {
    #[verifier::type_invariant]
    spec fn well_formed(self) -> bool {
        &&& self.segments@.len() > 0
        &&& all_named(views(self.segments@))
    }

    /// A position from the names of its submenus.
    pub fn new(segments: &[&str]) -> (r: Result<Self, MenuPathError>)
        ensures
            segments@.len() == 0 ==> r == Err::<Self, MenuPathError>(
                MenuPathError::BareTopLevelItem,
            ),
            segments@.len() > 0 && !all_named(str_views(segments@)) ==> r == Err::<
                Self,
                MenuPathError,
            >(MenuPathError::EmptySegment),
            segments@.len() > 0 && all_named(str_views(segments@)) ==> (r matches Ok(p) && p@
                == str_views(segments@)),
    {
        if segments.len() == 0 {
            return Err(MenuPathError::BareTopLevelItem);
        }
        let mut out: Vec<String> = Vec::new();
        let mut i: usize = 0;
        while i < segments.len()
            invariant
                i <= segments.len(),
                views(out@) == str_views(segments@).take(i as int),
                all_named(views(out@)),
            decreases segments.len() - i,
        {
            let name = segments[i];
            if trimmed(name).unicode_len() == 0 {
                assert(trim(str_views(segments@)[i as int]).len() == 0);
                return Err(MenuPathError::EmptySegment);
            }
            let ghost prev = out@;
            out.push(name.to_owned());
            assert(views(out@) =~= views(prev).push(name@));
            assert(str_views(segments@).take(i + 1) =~= str_views(segments@).take(i as int).push(
                name@,
            ));
            i = i + 1;
        }
        assert(str_views(segments@).take(segments.len() as int) =~= str_views(segments@));
        Ok(MenuPath { segments: out })
    }

    /// The names of the submenus, the top level first.
    pub fn segments(&self) -> (r: &Vec<String>)
        ensures
            views(r@) == self@,
            r@.len() > 0,
    {
        proof {
            use_type_invariant(self);
        }
        &self.segments
    }

    /// The top-level submenu.
    pub fn top_level(&self) -> (r: &str)
        ensures
            self@.len() > 0,
            r@ == self@[0],
    {
        proof {
            use_type_invariant(self);
        }
        self.segments[0].as_str()
    }
}

impl Clone for MenuPath {
    fn clone(&self) -> (r: Self)
        ensures
            r@ == self@,
    {
        proof {
            use_type_invariant(self);
        }
        let segments = self.segments.clone();
        proof {
            assert forall|i: int| 0 <= i < segments@.len() implies segments@[i] == self.segments@[i] by {
                assert(cloned::<String>(self.segments[i], segments[i]));
            }
            assert(views(segments@) =~= views(self.segments@));
        }
        MenuPath { segments }
    }
}

/// Where the built-in quit item goes: the application menu on macOS, the file menu elsewhere.
pub fn builtin_quit_path(placement: MenuPlacement) -> (r: MenuPath)
    ensures
        r@ == seq![
            if placement == MenuPlacement::ApplicationWide {
                APPLICATION_MENU_LABEL@
            } else {
                FILE_MENU_LABEL@
            },
        ],
{
    let name = match placement {
        MenuPlacement::ApplicationWide => APPLICATION_MENU_LABEL,
        MenuPlacement::PerWindow => FILE_MENU_LABEL,
    };
    let mut segments: Vec<String> = Vec::new();
    segments.push(name.to_owned());
    proof {
        reveal_strlit("jxcel");
        reveal_strlit("ファイル");
        assert(views(segments@) =~= seq![name@]);
        assert(trim(name@) =~= name@);
    }
    MenuPath { segments }
}

// ---------------------------------------------------------------------------
// Order of the top-level submenus
// ---------------------------------------------------------------------------

/// The rank of a known top-level submenu (1-based), 255 for others.
pub open spec fn known_rank(label: Seq<char>) -> u8 {
    if label == "ファイル"@ {
        1
    } else if label == "編集"@ {
        2
    } else if label == "表示"@ {
        3
    } else if label == "ヘルプ"@ {
        4
    } else {
        255
    }
}

/// The sort key of a top-level submenu: the application menu first on macOS, then the
/// known submenus in their conventional order, then the others by name.
pub open spec fn sort_key(label: Seq<char>, placement: MenuPlacement) -> (u8, u8, Seq<char>) {
    (
        if placement == MenuPlacement::ApplicationWide && label == APPLICATION_MENU_LABEL@ {
            0
        } else {
            1
        },
        known_rank(label),
        label,
    )
}

/// The order of sort keys.
pub open spec fn key_le(a: (u8, u8, Seq<char>), b: (u8, u8, Seq<char>)) -> bool {
    a.0 < b.0 || (a.0 == b.0 && (a.1 < b.1 || (a.1 == b.1 && text_le(a.2, b.2))))
}

/// The sort key of a top-level submenu.
pub fn top_level_sort_key(label: &str, placement: MenuPlacement) -> (r: (u8, u8, String))
    ensures
        (r.0, r.1, r.2@) == sort_key(label@, placement),
{
    let application_menu: u8 = if placement == MenuPlacement::ApplicationWide && str_equal(
        label,
        APPLICATION_MENU_LABEL,
    ) {
        0
    } else {
        1
    };
    let known: u8 = if str_equal(label, "ファイル") {
        1
    } else if str_equal(label, "編集") {
        2
    } else if str_equal(label, "表示") {
        3
    } else if str_equal(label, "ヘルプ") {
        4
    } else {
        255
    };
    (application_menu, known, label.to_owned())
}

/// Whether `a` sorts before or with `b` as a top-level submenu.
pub fn top_level_le(a: &str, b: &str, placement: MenuPlacement) -> (r: bool)
    ensures
        r == key_le(sort_key(a@, placement), sort_key(b@, placement)),
{
    let ka = top_level_sort_key(a, placement);
    let kb = top_level_sort_key(b, placement);
    ka.0 < kb.0 || (ka.0 == kb.0 && (ka.1 < kb.1 || (ka.1 == kb.1 && text_le_exec(
        ka.2.as_str(),
        kb.2.as_str(),
    ))))
}

// ---------------------------------------------------------------------------
// Target window (requirement 3.5)
// ---------------------------------------------------------------------------

/// The view of an optional window label.
pub open spec fn label_view(w: Option<WindowLabel>) -> Option<Seq<char>> {
    match w {
        Some(l) => Some(l@),
        None => None,
    }
}

/// The target of an activation: with a menu per window, the window that owns the menu
/// (else the focused one); with one menu for the application, the window focused at the
/// time of the activation.
pub open spec fn routed(
    placement: MenuPlacement,
    origin: Option<Seq<char>>,
    focused: Option<Seq<char>>,
) -> Option<Seq<char>> {
    match placement {
        MenuPlacement::PerWindow => if origin is Some {
            origin
        } else {
            focused
        },
        MenuPlacement::ApplicationWide => focused,
    }
}

/// Decides the target window of an activation.
pub fn routed_target(
    placement: MenuPlacement,
    origin: Option<WindowLabel>,
    focused: Option<WindowLabel>,
) -> (r: Option<WindowLabel>)
    ensures
        label_view(r) == routed(placement, label_view(origin), label_view(focused)),
{
    match placement {
        MenuPlacement::PerWindow => match origin {
            Some(label) => Some(label),
            None => focused,
        },
        MenuPlacement::ApplicationWide => focused,
    }
}

/// Picks the focused window among the candidates: the one whose label sorts first, so the
/// same observation always gives the same answer; none when no candidate is focused.
pub fn select_focused(candidates: Vec<(WindowLabel, bool)>) -> (r: Option<WindowLabel>)
    ensures
        r is None <==> forall|i: int| 0 <= i < candidates@.len() ==> !(#[trigger] candidates@[i]).1,
        r matches Some(l) ==> (exists|i: int|
            0 <= i < candidates@.len() && (#[trigger] candidates@[i]).1 && candidates@[i].0@ == l@)
            && forall|i: int|
            0 <= i < candidates@.len() && (#[trigger] candidates@[i]).1 ==> text_le(
                l@,
                candidates@[i].0@,
            ),
{
    let mut best: Option<WindowLabel> = None;
    let mut i: usize = 0;
    while i < candidates.len()
        invariant
            i <= candidates@.len(),
            best is None <==> forall|k: int| 0 <= k < i ==> !(#[trigger] candidates@[k]).1,
            best matches Some(l) ==> (exists|k: int|
                0 <= k < i && (#[trigger] candidates@[k]).1 && candidates@[k].0@ == l@) && forall|
                k: int,
            |
                0 <= k < i && (#[trigger] candidates@[k]).1 ==> text_le(l@, candidates@[k].0@),
        decreases candidates@.len() - i,
    {
        let (label, focused) = &candidates[i];
        if *focused {
            let replace = match &best {
                None => true,
                Some(current) => !text_le_exec(current.as_str(), label.as_str()),
            };
            proof {
                if let Some(current) = &best {
                    if !replace {
                    } else {
                        crate::text::lemma_text_le_total(current@, label@);
                        assert forall|k: int|
                            0 <= k < i + 1 && (#[trigger] candidates@[k]).1 implies text_le(
                            label@,
                            candidates@[k].0@,
                        ) by {
                            if k < i {
                                crate::text::lemma_text_le_transitive(
                                    label@,
                                    current@,
                                    candidates@[k].0@,
                                );
                            } else {
                                crate::text::lemma_text_le_total(label@, label@);
                            }
                        }
                    }
                } else {
                    crate::text::lemma_text_le_total(label@, label@);
                }
            }
            if replace {
                best = Some(label.duplicate());
            }
        }
        i = i + 1;
    }
    best
}

/// The target window of the menu and the document associated with it.
#[derive(Debug, Clone, PartialEq, Eq)]
pub struct MenuTarget {
    window: Option<WindowLabel>,
    document: Option<String>,
}

/// The view of an optional text.
pub open spec fn text_view(t: Option<String>) -> Option<Seq<char>> {
    match t {
        Some(s) => Some(s@),
        None => None,
    }
}

impl View for MenuTarget {
    /// The target window's label and its document, each absent when there is none.
    type V = (Option<Seq<char>>, Option<Seq<char>>);

    closed spec fn view(&self) -> (Option<Seq<char>>, Option<Seq<char>>) {
        (label_view(self.window), text_view(self.document))
    }
}

impl MenuTarget {
    /// A target window (none when no window is focused) and its document.
    pub fn new(window: Option<WindowLabel>, document: Option<String>) -> (r: Self)
        ensures
            r@ == (label_view(window), text_view(document)),
    {
        MenuTarget { window, document }
    }

    /// The target window.
    pub fn window(&self) -> (r: Option<&WindowLabel>)
        ensures
            match r {
                Some(w) => self@.0 == Some(w@),
                None => self@.0 is None,
            },
    {
        self.window.as_ref()
    }

    /// The document of the target window.
    pub fn document(&self) -> (r: Option<&str>)
        ensures
            match r {
                Some(d) => self@.1 == Some(d@),
                None => self@.1 is None,
            },
    {
        match &self.document {
            Some(d) => Some(d.as_str()),
            None => None,
        }
    }

    /// One line for the log; it says so when there is no target.
    pub fn describe(&self) -> (r: String)
        ensures
            r@ == describe_target(self@),
    {
        match &self.window {
            Some(label) => {
                let mut out = label.as_str().to_owned();
                match &self.document {
                    Some(path) => {
                        out.append("（ドキュメント=");
                        out.append(path.as_str());
                        out.append("）");
                    },
                    None => {
                        out.append("（ドキュメントなし）");
                    },
                }
                out
            },
            None => "(対象ウィンドウなし)".to_owned(),
        }
    }
}

/// The log line of a target: the window and its document, or that there is no target.
pub open spec fn describe_target(t: (Option<Seq<char>>, Option<Seq<char>>)) -> Seq<char> {
    match t.0 {
        Some(w) => w + match t.1 {
            Some(d) => "（ドキュメント="@ + d + "）"@,
            None => "（ドキュメントなし）"@,
        },
        None => "(対象ウィンドウなし)"@,
    }
}

/// The identifiers of the disabled items, in order.
pub open spec fn disabled_items(enabled: Seq<(String, bool)>) -> Seq<Seq<char>>
    decreases enabled.len(),
{
    if enabled.len() == 0 {
        Seq::empty()
    } else if enabled.last().1 {
        disabled_items(enabled.drop_last())
    } else {
        disabled_items(enabled.drop_last()).push(enabled.last().0@)
    }
}

/// The disabled items for the log, in identifier order and separated by `, `, or `(なし)`
/// when there are none.
pub fn describe_disabled(enabled: &Vec<(String, bool)>) -> (r: String)
    ensures
        disabled_items(enabled@).len() == 0 ==> r@ == "(なし)"@,
        disabled_items(enabled@).len() > 0 ==> exists|order: Seq<Seq<char>>|
            text_sorted(order) && order.to_multiset() == disabled_items(enabled@).to_multiset()
                && r@ == join(order, ", "@),
{
    let mut disabled: Vec<String> = Vec::new();
    let mut i: usize = 0;
    assert(enabled@.take(0) =~= Seq::<(String, bool)>::empty());
    while i < enabled.len()
        invariant
            i <= enabled@.len(),
            views(disabled@) == disabled_items(enabled@.take(i as int)),
        decreases enabled@.len() - i,
    {
        assert(enabled@.take(i + 1).drop_last() =~= enabled@.take(i as int));
        if !enabled[i].1 {
            let ghost prev = disabled@;
            disabled.push(enabled[i].0.clone());
            assert(views(disabled@) =~= views(prev).push(enabled@[i as int].0@));
        }
        i = i + 1;
    }
    assert(enabled@.take(enabled@.len() as int) =~= enabled@);
    if disabled.len() == 0 {
        "(なし)".to_owned()
    } else {
        let order = sorted(&disabled);
        proof {
            broadcast use vstd::seq_lib::group_to_multiset_ensures;

            assert(views(disabled@).len() > 0);
        }
        join_strings(&order, ", ")
    }
}

} // verus!

verus! {

// ---------------------------------------------------------------------------
// Registration: identity of the registrant and notification of selections
// ---------------------------------------------------------------------------

/// A selected menu item: enough identification for the registrant to dispatch on.
#[derive(Debug, Clone, PartialEq, Eq)]
pub struct MenuSelection {
    owner: String,
    item: String,
    window: Option<WindowLabel>,
}

impl View for MenuSelection {
    /// The registrant, the item and the target window.
    type V = (Seq<char>, Seq<char>, Option<Seq<char>>);

    closed spec fn view(&self) -> (Seq<char>, Seq<char>, Option<Seq<char>>) {
        (self.owner@, self.item@, label_view(self.window))
    }
}

impl MenuSelection {
    /// The registrant.
    pub fn owner(&self) -> (r: &str)
        ensures
            r@ == self@.0,
    {
        self.owner.as_str()
    }

    /// The identifier of the selected item.
    pub fn item(&self) -> (r: &str)
        ensures
            r@ == self@.1,
    {
        self.item.as_str()
    }

    /// The target window (none when there is no target).
    pub fn window(&self) -> (r: Option<&WindowLabel>)
        ensures
            match r {
                Some(w) => self@.2 == Some(w@),
                None => self@.2 is None,
            },
    {
        self.window.as_ref()
    }
}

/// The view of a shortcut as the shortcut parser read it: its canonical form, or why it
/// could not be read.
pub open spec fn chord_view(c: Option<Result<String, String>>) -> Option<Result<Seq<char>, Seq<char>>> {
    match c {
        Some(Ok(chord)) => Some(Ok(chord@)),
        Some(Err(reason)) => Some(Err(reason@)),
        None => None,
    }
}

/// A menu item to register. The registrant and the item together are the identity of a
/// registration. `H` is what is notified on selection, `E` decides enablement per target.
pub struct MenuItemSpec<H, E> {
    owner: String,
    item: String,
    path: MenuPath,
    label: String,
    accelerator: Option<Result<String, String>>,
    enablement: Option<E>,
    handler: H,
}

/// The view of a registration request: registrant, item, position, label, the shortcut as
/// read, the enablement rule and the handler.
pub type ItemSpecView<H, E> = (
    Seq<char>,
    Seq<char>,
    Seq<Seq<char>>,
    Seq<char>,
    Option<Result<Seq<char>, Seq<char>>>,
    Option<E>,
    H,
);

impl<H, E> View for MenuItemSpec<H, E> {
    type V = ItemSpecView<H, E>;

    closed spec fn view(&self) -> ItemSpecView<H, E> {
        (
            self.owner@,
            self.item@,
            self.path@,
            self.label@,
            chord_view(self.accelerator),
            self.enablement,
            self.handler,
        )
    }
}

impl<H, E> MenuItemSpec<H, E> {
    /// An item of `owner` (the registrant's namespace), identified by `item` (unique in the
    /// whole application), shown as `label` at `path`; `handler` is notified on selection.
    pub fn new(owner: &str, item: &str, path: MenuPath, label: &str, handler: H) -> (r: Self)
        ensures
            r@ == (owner@, item@, path@, label@, None::<Result<Seq<char>, Seq<char>>>, None::<E>, handler),
    {
        MenuItemSpec {
            owner: owner.to_owned(),
            item: item.to_owned(),
            path,
            label: label.to_owned(),
            accelerator: None,
            enablement: None,
            handler,
        }
    }

    /// Assigns a shortcut, as the shortcut parser read its platform-resolved spelling: the
    /// canonical chord, or the reason it could not be read (refused at registration).
    pub fn with_accelerator(self, chord: Result<String, String>) -> (r: Self)
        ensures
            r@ == (self@.0, self@.1, self@.2, self@.3, chord_view(Some(chord)), self@.5, self@.6),
    {
        MenuItemSpec { accelerator: Some(chord), ..self }
    }

    /// Declares the rule that decides, per target window, whether the item is enabled.
    /// Without one the item is always enabled.
    pub fn with_enablement(self, predicate: E) -> (r: Self)
        ensures
            r@ == (self@.0, self@.1, self@.2, self@.3, self@.4, Some(predicate), self@.6),
    {
        MenuItemSpec { enablement: Some(predicate), ..self }
    }
}

/// One side of a shortcut conflict: a registration identity.
#[derive(Debug, Clone, PartialEq, Eq)]
pub struct AcceleratorHolder {
    /// The registrant.
    pub owner: String,
    /// The item.
    pub item: String,
}

/// Two registrations that asked for the same chord.
#[derive(Debug, Clone, PartialEq, Eq)]
pub struct AcceleratorConflict {
    /// The registration that holds the chord.
    pub existing: AcceleratorHolder,
    /// The registration that asked for it.
    pub incoming: AcceleratorHolder,
    /// The chord, in canonical form.
    pub chord: String,
}

/// Why a registration was not accepted. Every refusal reaches the registrant.
#[derive(Debug, Clone, PartialEq, Eq)]
pub enum MenuRegistrationError {
    /// The item identifier is already used by another registrant.
    ItemIdConflict {
        /// The identifier.
        item: String,
    },
    /// The shortcut spelling could not be read; the item is not registered.
    AcceleratorSyntax {
        /// The item.
        item: String,
        /// Why the spelling could not be read.
        source: String,
    },
    /// The shortcut is held by another registration; nothing changes.
    Accelerator(Box<AcceleratorConflict>),
    /// The menu could not be placed; the registration itself stands.
    Placement {
        /// The platform's description.
        message: String,
    },
}

impl MenuRegistrationError {
    /// The text of the error.
    pub fn describe(&self) -> (r: String)
        ensures
            r@ == (match self {
                MenuRegistrationError::ItemIdConflict { item } => "メニュー項目の識別子 \""@ + item@
                    + "\" はほかの登録元が既に使っている"@,
                MenuRegistrationError::AcceleratorSyntax { item, source } => "メニュー項目 \""@
                    + item@ + "\" のショートカットを解釈できない: "@ + source@,
                MenuRegistrationError::Accelerator(conflict) => conflict_text(
                    conflict.existing.owner@,
                    conflict.existing.item@,
                    conflict.incoming.owner@,
                    conflict.incoming.item@,
                    conflict.chord@,
                ),
                MenuRegistrationError::Placement { message } => "メニューを配置できなかった: "@
                    + message@,
            }),
    {
        match self {
            MenuRegistrationError::ItemIdConflict { item } => {
                let mut out = "メニュー項目の識別子 \"".to_owned();
                out.append(item.as_str());
                out.append("\" はほかの登録元が既に使っている");
                out
            },
            MenuRegistrationError::AcceleratorSyntax { item, source } => {
                let mut out = "メニュー項目 \"".to_owned();
                out.append(item.as_str());
                out.append("\" のショートカットを解釈できない: ");
                out.append(source.as_str());
                out
            },
            MenuRegistrationError::Accelerator(conflict) => {
                let mut out = "ショートカット ".to_owned();
                out.append(conflict.chord.as_str());
                out.append(" は ");
                out.append(conflict.existing.owner.as_str());
                out.append("/");
                out.append(conflict.existing.item.as_str());
                out.append(" が使っているため ");
                out.append(conflict.incoming.owner.as_str());
                out.append("/");
                out.append(conflict.incoming.item.as_str());
                out.append(" に割り当てられない");
                out
            },
            MenuRegistrationError::Placement { message } => {
                let mut out = "メニューを配置できなかった: ".to_owned();
                out.append(message.as_str());
                out
            },
        }
    }
}

/// The text of a shortcut conflict.
pub open spec fn conflict_text(
    existing_owner: Seq<char>,
    existing_item: Seq<char>,
    incoming_owner: Seq<char>,
    incoming_item: Seq<char>,
    chord: Seq<char>,
) -> Seq<char> {
    "ショートカット "@ + chord + " は "@ + existing_owner + "/"@ + existing_item
        + " が使っているため "@ + incoming_owner + "/"@ + incoming_item + " に割り当てられない"@
}

} // verus!

verus! {

// ---------------------------------------------------------------------------
// The registry
// ---------------------------------------------------------------------------

/// `a < b` for strings.
pub open spec fn text_lt(a: Seq<char>, b: Seq<char>) -> bool {
    text_le(a, b) && a != b
}

/// The order of registration identities: by registrant, then by item.
pub open spec fn key_lt(a: (Seq<char>, Seq<char>), b: (Seq<char>, Seq<char>)) -> bool {
    text_lt(a.0, b.0) || (a.0 == b.0 && text_lt(a.1, b.1))
}

/// `<` on strings is transitive.
pub proof fn lemma_text_lt_transitive(a: Seq<char>, b: Seq<char>, c: Seq<char>)
    requires
        text_lt(a, b),
        text_lt(b, c),
    ensures
        text_lt(a, c),
{
    crate::text::lemma_text_le_transitive(a, b, c);
    if a == c {
        crate::text::lemma_text_le_antisymmetric(a, b);
    }
}

/// Two strings are equal or ordered one way.
pub proof fn lemma_text_lt_trichotomy(a: Seq<char>, b: Seq<char>)
    ensures
        text_lt(a, b) || a == b || text_lt(b, a),
{
    crate::text::lemma_text_le_total(a, b);
}

/// The order of identities is transitive.
pub proof fn lemma_key_lt_transitive(
    a: (Seq<char>, Seq<char>),
    b: (Seq<char>, Seq<char>),
    c: (Seq<char>, Seq<char>),
)
    requires
        key_lt(a, b),
        key_lt(b, c),
    ensures
        key_lt(a, c),
{
    if text_lt(a.0, b.0) && text_lt(b.0, c.0) {
        lemma_text_lt_transitive(a.0, b.0, c.0);
    } else if text_lt(a.0, b.0) {
    } else if text_lt(b.0, c.0) {
    } else {
        lemma_text_lt_transitive(a.1, b.1, c.1);
    }
}

/// Two identities are equal or ordered one way.
pub proof fn lemma_key_lt_trichotomy(a: (Seq<char>, Seq<char>), b: (Seq<char>, Seq<char>))
    ensures
        key_lt(a, b) || a == b || key_lt(b, a),
{
    lemma_text_lt_trichotomy(a.0, b.0);
    lemma_text_lt_trichotomy(a.1, b.1);
}

/// The view of a registration: registrant, item, position, label, chord (canonical), the
/// enablement rule and the handler.
pub type EntryView<H, E> = (
    Seq<char>,
    Seq<char>,
    Seq<Seq<char>>,
    Seq<char>,
    Option<Seq<char>>,
    Option<E>,
    H,
);

/// The identity of a registration.
pub open spec fn entry_key<H, E>(e: EntryView<H, E>) -> (Seq<char>, Seq<char>) {
    (e.0, e.1)
}

/// The registrations are in identity order, no item identifier occurs twice, and no chord
/// is assigned twice.
pub open spec fn registry_wf<H, E>(s: Seq<EntryView<H, E>>) -> bool {
    &&& forall|i: int, j: int|
        0 <= i < j < s.len() ==> key_lt(entry_key(#[trigger] s[i]), entry_key(#[trigger] s[j]))
    &&& forall|i: int, j: int|
        0 <= i < s.len() && 0 <= j < s.len() && i != j ==> (#[trigger] s[i]).1 != (#[trigger] s[j]).1
    &&& forall|i: int, j: int|
        0 <= i < s.len() && 0 <= j < s.len() && i != j && (#[trigger] s[i]).4 is Some
            ==> (#[trigger] s[j]).4 != s[i].4
}

/// The registrations with `e` registered: it replaces the registration of the same identity,
/// or joins at its place in identity order.
pub open spec fn upsert<H, E>(s: Seq<EntryView<H, E>>, e: EntryView<H, E>) -> Seq<EntryView<H, E>>
    decreases s.len(),
{
    if s.len() == 0 {
        seq![e]
    } else if entry_key(s[0]) == entry_key(e) {
        seq![e] + s.drop_first()
    } else if key_lt(entry_key(e), entry_key(s[0])) {
        seq![e] + s
    } else {
        seq![s[0]] + upsert(s.drop_first(), e)
    }
}

/// Whether another registrant uses the item identifier.
pub open spec fn item_taken<H, E>(s: Seq<EntryView<H, E>>, owner: Seq<char>, item: Seq<char>) -> bool {
    exists|i: int| 0 <= i < s.len() && (#[trigger] s[i]).1 == item && s[i].0 != owner
}

/// Whether another registration holds the chord.
pub open spec fn chord_taken<H, E>(
    s: Seq<EntryView<H, E>>,
    chord: Seq<char>,
    key: (Seq<char>, Seq<char>),
) -> bool {
    exists|i: int|
        0 <= i < s.len() && (#[trigger] s[i]).4 == Some(chord) && entry_key(s[i]) != key
}

/// The canonical chord of a request that could be read.
pub open spec fn requested_chord(c: Option<Result<Seq<char>, Seq<char>>>) -> Option<Seq<char>> {
    match c {
        Some(Ok(chord)) => Some(chord),
        _ => None,
    }
}

/// The registration that a request makes.
pub open spec fn registration_of<H, E>(spec: ItemSpecView<H, E>) -> EntryView<H, E> {
    (spec.0, spec.1, spec.2, spec.3, requested_chord(spec.4), spec.5, spec.6)
}

/// `upsert` at the place found by a scan of the identities.
proof fn lemma_upsert_at<H, E>(s: Seq<EntryView<H, E>>, e: EntryView<H, E>, p: int)
    requires
        registry_wf(s),
        0 <= p <= s.len(),
        forall|q: int| 0 <= q < p ==> key_lt(entry_key(#[trigger] s[q]), entry_key(e)),
        p == s.len() || !key_lt(entry_key(s[p]), entry_key(e)),
    ensures
        upsert(s, e) == (if p < s.len() && entry_key(s[p]) == entry_key(e) {
            s.update(p, e)
        } else {
            s.insert(p, e)
        }),
    decreases p,
{
    if p == 0 {
        if s.len() == 0 {
            assert(s.insert(0, e) =~= seq![e]);
        } else if entry_key(s[0]) == entry_key(e) {
            assert(s.update(0, e) =~= seq![e] + s.drop_first());
        } else {
            lemma_key_lt_trichotomy(entry_key(s[0]), entry_key(e));
            assert(s.insert(0, e) =~= seq![e] + s);
        }
    } else {
        let t = s.drop_first();
        assert(registry_wf(t)) by {
            assert forall|i: int, j: int| 0 <= i < j < t.len() implies key_lt(
                entry_key(#[trigger] t[i]),
                entry_key(#[trigger] t[j]),
            ) by {
                assert(t[i] == s[i + 1] && t[j] == s[j + 1]);
            }
            assert forall|i: int, j: int|
                0 <= i < t.len() && 0 <= j < t.len() && i != j implies (#[trigger] t[i]).1 != (
            #[trigger] t[j]).1 by {
                assert(t[i] == s[i + 1] && t[j] == s[j + 1]);
            }
            assert forall|i: int, j: int|
                0 <= i < t.len() && 0 <= j < t.len() && i != j && (#[trigger] t[i]).4 is Some implies (
            #[trigger] t[j]).4 != t[i].4 by {
                assert(t[i] == s[i + 1] && t[j] == s[j + 1]);
            }
        }
        assert forall|q: int| 0 <= q < p - 1 implies key_lt(entry_key(#[trigger] t[q]), entry_key(e)) by {
            assert(t[q] == s[q + 1]);
        }
        assert(key_lt(entry_key(s[0]), entry_key(e)));
        if key_lt(entry_key(e), entry_key(s[0])) {
            lemma_key_lt_transitive(entry_key(s[0]), entry_key(e), entry_key(s[0]));
        }
        lemma_upsert_at(t, e, p - 1);
        if p < s.len() && entry_key(s[p]) == entry_key(e) {
            assert(s.update(p, e) =~= seq![s[0]] + t.update(p - 1, e));
        } else {
            assert(s.insert(p, e) =~= seq![s[0]] + t.insert(p - 1, e));
        }
    }
}

/// A registration as stored.
struct Registration<H, E> {
    owner: String,
    item: String,
    path: MenuPath,
    label: String,
    accelerator: Option<String>,
    enablement: Option<E>,
    handler: H,
}

/// The view of a stored registration.
spec fn registration_view<H, E>(r: Registration<H, E>) -> EntryView<H, E> {
    (r.owner@, r.item@, r.path@, r.label@, text_view(r.accelerator), r.enablement, r.handler)
}

/// The menu registry: one per application. Features register their items; a selection is
/// routed to the handler given at registration. Registrations are kept in identity order,
/// so enumeration and the built menu are deterministic.
pub struct MenuRegistry<H, E> {
    entries: Vec<Registration<H, E>>,
}

impl<H, E> View for MenuRegistry<H, E> {
    type V = Seq<EntryView<H, E>>;

    closed spec fn view(&self) -> Seq<EntryView<H, E>> {
        self.entries@.map_values(|r: Registration<H, E>| registration_view(r))
    }
}

impl<H, E> MenuRegistry<H, E> {
    #[verifier::type_invariant]
    spec fn well_formed(self) -> bool {
        registry_wf(self@)
    }

    /// An empty registry.
    pub fn new() -> (r: Self)
        ensures
            r@ == Seq::<EntryView<H, E>>::empty(),
    {
        let r = MenuRegistry { entries: Vec::new() };
        assert(r@ =~= Seq::<EntryView<H, E>>::empty());
        r
    }

    /// The entry point of registration (independent of the platform): adds the item to the
    /// registry without building or placing the menu. Registering the same identity again
    /// updates label, position, shortcut and handler. A conflicting shortcut and an item
    /// identifier of another registrant are refused without any change.
    #[verifier::loop_isolation(false)]
    pub fn enroll(&mut self, spec: MenuItemSpec<H, E>) -> (r: Result<(), MenuRegistrationError>)
        ensures
            registry_wf(final(self)@),
            match spec@.4 {
                Some(Err(reason)) => final(self)@ == old(self)@ && (r matches Err(
                    MenuRegistrationError::AcceleratorSyntax { item, source },
                ) && item@ == spec@.1 && source@ == reason),
                _ => if item_taken(old(self)@, spec@.0, spec@.1) {
                    final(self)@ == old(self)@ && (r matches Err(
                        MenuRegistrationError::ItemIdConflict { item },
                    ) && item@ == spec@.1)
                } else if requested_chord(spec@.4) is Some && chord_taken(
                    old(self)@,
                    requested_chord(spec@.4)->0,
                    (spec@.0, spec@.1),
                ) {
                    final(self)@ == old(self)@ && (r matches Err(
                        MenuRegistrationError::Accelerator(conflict),
                    ) && conflict.incoming.owner@ == spec@.0 && conflict.incoming.item@ == spec@.1
                        && conflict.chord@ == requested_chord(spec@.4)->0 && (exists|i: int|
                        0 <= i < old(self)@.len() && (#[trigger] old(self)@[i]).4 == Some(
                            conflict.chord@,
                        ) && conflict.existing.owner@ == old(self)@[i].0
                            && conflict.existing.item@ == old(self)@[i].1))
                } else {
                    r is Ok && final(self)@ == upsert(old(self)@, registration_of(spec@))
                },
            },
    {
        proof {
            use_type_invariant(&*self);
        }
        let ghost old_view = self@;
        let ghost spec_view = spec@;
        let MenuItemSpec { owner, item, path, label, accelerator, enablement, handler } = spec;
        let chord: Option<String> = match accelerator {
            Some(Ok(c)) => Some(c),
            Some(Err(reason)) => {
                return Err(MenuRegistrationError::AcceleratorSyntax { item, source: reason });
            },
            None => None,
        };
        // An item identifier is unique in the whole application.
        let mut i: usize = 0;
        while i < self.entries.len()
            invariant
                i <= self.entries@.len(),
                self@ == old_view,
                owner@ == spec_view.0,
                item@ == spec_view.1,
                forall|k: int|
                    0 <= k < i ==> !((#[trigger] old_view[k]).1 == item@ && old_view[k].0 != owner@),
            decreases self.entries@.len() - i,
        {
            let same_item = str_equal(self.entries[i].item.as_str(), item.as_str());
            assert(old_view[i as int] == registration_view(self.entries@[i as int]));
            if same_item && !str_equal(self.entries[i].owner.as_str(), owner.as_str()) {
                return Err(MenuRegistrationError::ItemIdConflict { item });
            }
            i = i + 1;
        }
        // A chord is held by at most one registration.
        if let Some(c) = &chord {
            let mut j: usize = 0;
            while j < self.entries.len()
                invariant
                    j <= self.entries@.len(),
                    self@ == old_view,
                    owner@ == spec_view.0,
                    item@ == spec_view.1,
                    forall|k: int|
                        0 <= k < j ==> !((#[trigger] old_view[k]).4 == Some(c@) && entry_key(
                            old_view[k],
                        ) != (owner@, item@)),
                decreases self.entries@.len() - j,
            {
                assert(old_view[j as int] == registration_view(self.entries@[j as int]));
                let holds = match &self.entries[j].accelerator {
                    Some(held) => str_equal(held.as_str(), c.as_str()),
                    None => false,
                };
                if holds && !(str_equal(self.entries[j].owner.as_str(), owner.as_str())
                    && str_equal(self.entries[j].item.as_str(), item.as_str())) {
                    let existing = AcceleratorHolder {
                        owner: self.entries[j].owner.clone(),
                        item: self.entries[j].item.clone(),
                    };
                    let conflict = AcceleratorConflict {
                        existing,
                        incoming: AcceleratorHolder { owner, item },
                        chord: c.clone(),
                    };
                    return Err(MenuRegistrationError::Accelerator(Box::new(conflict)));
                }
                j = j + 1;
            }
        }
        let registration = Registration {
            owner,
            item,
            path,
            label,
            accelerator: chord,
            enablement,
            handler,
        };
        let ghost e = registration_view(registration);
        assert(e == registration_of(spec_view));
        // The place of the identity.
        let mut p: usize = 0;
        while p < self.entries.len() && key_lt_exec(
            self.entries[p].owner.as_str(),
            self.entries[p].item.as_str(),
            registration.owner.as_str(),
            registration.item.as_str(),
        )
            invariant
                p <= self.entries@.len(),
                self@ == old_view,
                e == registration_view(registration),
                forall|q: int| 0 <= q < p ==> key_lt(entry_key(#[trigger] old_view[q]), entry_key(e)),
            decreases self.entries@.len() - p,
        {
            assert(old_view[p as int] == registration_view(self.entries@[p as int]));
            p = p + 1;
        }
        proof {
            if p < old_view.len() {
                assert(old_view[p as int] == registration_view(self.entries@[p as int]));
            }
            lemma_upsert_at(old_view, e, p as int);
        }
        let replace = p < self.entries.len() && str_equal(
            self.entries[p].owner.as_str(),
            registration.owner.as_str(),
        ) && str_equal(self.entries[p].item.as_str(), registration.item.as_str());
        let ghost target = if replace {
            old_view.update(p as int, e)
        } else {
            old_view.insert(p as int, e)
        };
        proof {
            if p < old_view.len() {
                assert(old_view[p as int] == registration_view(self.entries@[p as int]));
            }
            lemma_upsert_keeps_wf(old_view, e, p as int, replace);
        }
        let mut entries: Vec<Registration<H, E>> = Vec::new();
        std::mem::swap(&mut entries, &mut self.entries);
        if replace {
            entries.set(p, registration);
        } else {
            entries.insert(p, registration);
        }
        assert(entries@.map_values(|r: Registration<H, E>| registration_view(r)) =~= target);
        self.entries = entries;
        Ok(())
    }
}

/// `(ao, ai) < (bo, bi)` in identity order.
fn key_lt_exec(ao: &str, ai: &str, bo: &str, bi: &str) -> (r: bool)
    ensures
        r == key_lt((ao@, ai@), (bo@, bi@)),
{
    let owner_eq = str_equal(ao, bo);
    if !owner_eq {
        text_le_exec(ao, bo)
    } else {
        text_le_exec(ai, bi) && !str_equal(ai, bi)
    }
}

/// Registering at the scanned place keeps the registry well formed, given that the
/// request passed the identifier and chord checks.
proof fn lemma_upsert_keeps_wf<H, E>(s: Seq<EntryView<H, E>>, e: EntryView<H, E>, p: int, replace: bool)
    requires
        registry_wf(s),
        0 <= p <= s.len(),
        forall|q: int| 0 <= q < p ==> key_lt(entry_key(#[trigger] s[q]), entry_key(e)),
        p == s.len() || !key_lt(entry_key(s[p]), entry_key(e)),
        replace == (p < s.len() && entry_key(s[p]) == entry_key(e)),
        forall|k: int| 0 <= k < s.len() ==> !((#[trigger] s[k]).1 == e.1 && s[k].0 != e.0),
        e.4 is Some ==> forall|k: int|
            0 <= k < s.len() ==> !((#[trigger] s[k]).4 == e.4 && entry_key(s[k]) != entry_key(e)),
    ensures
        registry_wf(if replace {
            s.update(p, e)
        } else {
            s.insert(p, e)
        }),
{
    let t = if replace {
        s.update(p, e)
    } else {
        s.insert(p, e)
    };
    // Everything from `p` on sorts after `e` (or is `e`'s identity when replacing).
    assert forall|q: int| p <= q < s.len() && !(replace && q == p) implies key_lt(
        entry_key(e),
        entry_key(#[trigger] s[q]),
    ) by {
        lemma_key_lt_trichotomy(entry_key(s[p]), entry_key(e));
        if q > p {
            assert(key_lt(entry_key(s[p]), entry_key(s[q])));
            if entry_key(s[p]) != entry_key(e) {
                lemma_key_lt_transitive(entry_key(e), entry_key(s[p]), entry_key(s[q]));
            }
        }
    }
    // No other registration has `e`'s identity.
    assert forall|q: int| 0 <= q < s.len() && !(replace && q == p) implies entry_key(
        #[trigger] s[q],
    ) != entry_key(e) by {
        if q < p {
        } else {
        }
    }
    assert forall|i: int, j: int| 0 <= i < j < t.len() implies key_lt(
        entry_key(#[trigger] t[i]),
        entry_key(#[trigger] t[j]),
    ) by {
        if replace {
            if i == p {
            } else if j == p {
            } else {
            }
        } else {
            if i < p && j == p {
            } else if i < p && j > p {
                assert(t[j] == s[j - 1]);
            } else if i == p {
                assert(t[j] == s[j - 1]);
            } else if i > p {
                assert(t[i] == s[i - 1] && t[j] == s[j - 1]);
            } else {
            }
        }
    }
    assert forall|i: int, j: int|
        0 <= i < t.len() && 0 <= j < t.len() && i != j implies (#[trigger] t[i]).1 != (
    #[trigger] t[j]).1 by {
        let si = if replace || i < p {
            i
        } else {
            i - 1
        };
        let sj = if replace || j < p {
            j
        } else {
            j - 1
        };
        if (replace && i == p) || (!replace && i == p) {
            // `t[i] == e`; an equal item would have the same owner, hence the same identity.
            assert(t[i] == e);
            assert(t[j] == s[sj]);
        } else if (replace && j == p) || (!replace && j == p) {
            assert(t[j] == e);
            assert(t[i] == s[si]);
        } else {
            assert(t[i] == s[si] && t[j] == s[sj]);
        }
    }
    assert forall|i: int, j: int|
        0 <= i < t.len() && 0 <= j < t.len() && i != j && (#[trigger] t[i]).4 is Some implies (
    #[trigger] t[j]).4 != t[i].4 by {
        let si = if replace || i < p {
            i
        } else {
            i - 1
        };
        let sj = if replace || j < p {
            j
        } else {
            j - 1
        };
        if i == p {
            assert(t[i] == e);
            assert(t[j] == s[sj]);
        } else if j == p {
            assert(t[j] == e);
            assert(t[i] == s[si]);
        } else {
            assert(t[i] == s[si] && t[j] == s[sj]);
        }
    }
}

} // verus!

verus! {

/// The number of registrations that hold a chord.
pub open spec fn chord_count<H, E>(s: Seq<EntryView<H, E>>) -> nat
    decreases s.len(),
{
    if s.len() == 0 {
        0
    } else {
        chord_count(s.drop_last()) + if s.last().4 is Some {
            1nat
        } else {
            0nat
        }
    }
}

/// Hands the selection to the handler that was found for it, once; `false` (and no call)
/// when nothing was found.
pub fn notify_selection<F: Fn(&MenuSelection)>(found: Option<(MenuSelection, F)>) -> (r: bool)
    requires
        found matches Some(f) ==> call_requires(f.1, (&f.0,)),
    ensures
        r == found is Some,
{
    match found {
        Some((selection, handler)) => {
            handler(&selection);
            true
        },
        None => false,
    }
}

impl<H: Fn(&MenuSelection), E> MenuRegistry<H, E> {
    /// The only path of selection notices: finds the registration of the item and calls the
    /// registrant's handler once with the selection (registrant, item, target window; no
    /// window when there is no target). `false`, with no handler called, for an item that
    /// is not registered. The registry is not changed.
    pub fn dispatch(&self, item: &str, target: Option<WindowLabel>) -> (r: bool)
        requires
            forall|i: int, selection: MenuSelection|
                0 <= i < self@.len() ==> #[trigger] call_requires(self@[i].6, (&selection,)),
        ensures
            r == has_item(self@, item@),
    {
        match self.find_selection(item, target) {
            Some((selection, handler)) => {
                handler(&selection);
                true
            },
            None => false,
        }
    }
}

/// Whether some registration has this item identifier.
pub open spec fn has_item<H, E>(s: Seq<EntryView<H, E>>, item: Seq<char>) -> bool {
    exists|i: int| 0 <= i < s.len() && (#[trigger] s[i]).1 == item
}

impl<H, E> MenuRegistry<H, E> {
    /// Finds the registration of the item: the selection (registrant, item, target window)
    /// with the registrant's handler. An unregistered identifier gives nothing. A caller that
    /// holds the registry under a lock takes the handler out and calls it with
    /// [`notify_selection`] once the lock is released.
    pub fn find_selection(&self, item: &str, target: Option<WindowLabel>) -> (r: Option<(MenuSelection, &H)>)
        ensures
            r is None <==> !has_item(self@, item@),
            r matches Some(found) ==> exists|i: int|
                0 <= i < self@.len() && (#[trigger] self@[i]).1 == item@ && found.0@ == (
                    self@[i].0,
                    self@[i].1,
                    label_view(target),
                ) && *found.1 == self@[i].6,
    {
        let mut i: usize = 0;
        while i < self.entries.len()
            invariant
                i <= self.entries@.len(),
                forall|k: int| 0 <= k < i ==> (#[trigger] self@[k]).1 != item@,
            decreases self.entries@.len() - i,
        {
            let entry = &self.entries[i];
            assert(self@[i as int] == registration_view(self.entries@[i as int]));
            if str_equal(entry.item.as_str(), item) {
                let selection = MenuSelection {
                    owner: entry.owner.clone(),
                    item: entry.item.clone(),
                    window: target,
                };
                return Some((selection, &entry.handler));
            }
            i = i + 1;
        }
        None
    }

    /// Whether each item is enabled for the target window, in registration order. An item
    /// without a rule is always enabled; the rule of another is asked through `decide`.
    pub fn enabled_state<F: Fn(&E, &MenuTarget) -> bool>(&self, target: &MenuTarget, decide: F) -> (r:
        Vec<(String, bool)>)
        requires
            forall|rule: E| decide.requires((&rule, target)),
        ensures
            r@.len() == self@.len(),
            forall|i: int|
                0 <= i < self@.len() ==> (#[trigger] r@[i]).0@ == self@[i].1 && match self@[i].5 {
                    Some(rule) => decide.ensures((&rule, target), r@[i].1),
                    None => r@[i].1,
                },
    {
        let mut out: Vec<(String, bool)> = Vec::new();
        let mut i: usize = 0;
        while i < self.entries.len()
            invariant
                i <= self.entries@.len(),
                out@.len() == i,
                forall|rule: E| decide.requires((&rule, target)),
                forall|k: int|
                    0 <= k < i ==> (#[trigger] out@[k]).0@ == self@[k].1 && match self@[k].5 {
                        Some(rule) => decide.ensures((&rule, target), out@[k].1),
                        None => out@[k].1,
                    },
            decreases self.entries@.len() - i,
        {
            let entry = &self.entries[i];
            assert(self@[i as int] == registration_view(self.entries@[i as int]));
            let enabled = match &entry.enablement {
                Some(rule) => decide(rule, target),
                None => true,
            };
            out.push((entry.item.clone(), enabled));
            i = i + 1;
        }
        out
    }

    /// How many registrations hold a chord.
    pub fn accelerator_count(&self) -> (r: usize)
        ensures
            r == chord_count(self@),
    {
        let mut count: usize = 0;
        let mut i: usize = 0;
        while i < self.entries.len()
            invariant
                i <= self.entries@.len(),
                count == chord_count(self@.take(i as int)),
                count <= i,
            decreases self.entries@.len() - i,
        {
            assert(self@.take(i + 1).drop_last() =~= self@.take(i as int));
            assert(self@[i as int] == registration_view(self.entries@[i as int]));
            if self.entries[i].accelerator.is_some() {
                count = count + 1;
            }
            i = i + 1;
        }
        assert(self@.take(self@.len() as int) =~= self@);
        count
    }

    /// The number of registrations.
    pub fn len(&self) -> (r: usize)
        ensures
            r == self@.len(),
    {
        self.entries.len()
    }
}

} // verus!

verus! {

/// The registrations after the first are well formed too.
proof fn lemma_wf_drop_first<H, E>(s: Seq<EntryView<H, E>>)
    requires
        registry_wf(s),
        s.len() > 0,
    ensures
        registry_wf(s.drop_first()),
{
    let t = s.drop_first();
    assert forall|i: int, j: int| 0 <= i < j < t.len() implies key_lt(
        entry_key(#[trigger] t[i]),
        entry_key(#[trigger] t[j]),
    ) by {
        assert(t[i] == s[i + 1] && t[j] == s[j + 1]);
    }
    assert forall|i: int, j: int|
        0 <= i < t.len() && 0 <= j < t.len() && i != j implies (#[trigger] t[i]).1 != (
    #[trigger] t[j]).1 by {
        assert(t[i] == s[i + 1] && t[j] == s[j + 1]);
    }
    assert forall|i: int, j: int|
        0 <= i < t.len() && 0 <= j < t.len() && i != j && (#[trigger] t[i]).4 is Some implies (
    #[trigger] t[j]).4 != t[i].4 by {
        assert(t[i] == s[i + 1] && t[j] == s[j + 1]);
    }
}

/// What `upsert` holds: `e`, and the registrations of other identities.
proof fn lemma_upsert_members<H, E>(s: Seq<EntryView<H, E>>, e: EntryView<H, E>)
    requires
        registry_wf(s),
    ensures
        exists|j: int| 0 <= j < upsert(s, e).len() && #[trigger] upsert(s, e)[j] == e,
        forall|j: int|
            0 <= j < upsert(s, e).len() ==> #[trigger] upsert(s, e)[j] == e || exists|k: int|
                0 <= k < s.len() && s[k] == upsert(s, e)[j] && entry_key(s[k]) != entry_key(e),
    decreases s.len(),
{
    let u = upsert(s, e);
    if s.len() == 0 {
        assert(u[0] == e);
    } else if entry_key(s[0]) == entry_key(e) {
        assert(u[0] == e);
        assert forall|j: int| 0 <= j < u.len() implies #[trigger] u[j] == e || exists|k: int|
            0 <= k < s.len() && s[k] == u[j] && entry_key(s[k]) != entry_key(e) by {
            if j > 0 {
                assert(u[j] == s[j]);
                assert(key_lt(entry_key(s[0]), entry_key(s[j])));
            }
        }
    } else if key_lt(entry_key(e), entry_key(s[0])) {
        assert(u[0] == e);
        assert forall|j: int| 0 <= j < u.len() implies #[trigger] u[j] == e || exists|k: int|
            0 <= k < s.len() && s[k] == u[j] && entry_key(s[k]) != entry_key(e) by {
            if j > 0 {
                assert(u[j] == s[j - 1]);
                if j > 1 {
                    assert(key_lt(entry_key(s[0]), entry_key(s[j - 1])));
                    lemma_key_lt_transitive(entry_key(e), entry_key(s[0]), entry_key(s[j - 1]));
                }
            }
        }
    } else {
        let t = s.drop_first();
        lemma_wf_drop_first(s);
        lemma_upsert_members(t, e);
        let w = upsert(t, e);
        let jj = choose|j: int| 0 <= j < w.len() && #[trigger] w[j] == e;
        assert(u[jj + 1] == e);
        assert forall|j: int| 0 <= j < u.len() implies #[trigger] u[j] == e || exists|k: int|
            0 <= k < s.len() && s[k] == u[j] && entry_key(s[k]) != entry_key(e) by {
            if j == 0 {
                assert(u[0] == s[0]);
            } else {
                assert(u[j] == w[j - 1]);
                if w[j - 1] != e {
                    let k = choose|k: int|
                        0 <= k < t.len() && t[k] == w[j - 1] && entry_key(t[k]) != entry_key(e);
                    assert(s[k + 1] == t[k]);
                }
            }
        }
    }
}

/// Registering a registration twice is registering it once.
proof fn lemma_upsert_idempotent<H, E>(s: Seq<EntryView<H, E>>, e: EntryView<H, E>)
    ensures
        upsert(upsert(s, e), e) == upsert(s, e),
    decreases s.len(),
{
    if s.len() == 0 {
        assert(upsert(seq![e], e) =~= seq![e]);
    } else if entry_key(s[0]) == entry_key(e) {
        let u = seq![e] + s.drop_first();
        assert(u[0] == e);
        assert(u.drop_first() =~= s.drop_first());
    } else if key_lt(entry_key(e), entry_key(s[0])) {
        let u = seq![e] + s;
        assert(u[0] == e);
        assert(u.drop_first() =~= s);
    } else {
        let w = upsert(s.drop_first(), e);
        let u = seq![s[0]] + w;
        lemma_upsert_idempotent(s.drop_first(), e);
        assert(u[0] == s[0]);
        assert(u.drop_first() =~= w);
    }
}

/// Registering the same request again is accepted and leaves the registry as it was after
/// the first registration (menus are rebuilt, so the same registration comes repeatedly).
pub proof fn lemma_reregistration_is_idempotent<H, E>(s: Seq<EntryView<H, E>>, spec: ItemSpecView<H, E>)
    requires
        registry_wf(s),
        !(spec.4 matches Some(Err(_))),
        !item_taken(s, spec.0, spec.1),
        !(requested_chord(spec.4) is Some && chord_taken(s, requested_chord(spec.4)->0, (spec.0, spec.1))),
    ensures
        !item_taken(upsert(s, registration_of(spec)), spec.0, spec.1),
        !(requested_chord(spec.4) is Some && chord_taken(
            upsert(s, registration_of(spec)),
            requested_chord(spec.4)->0,
            (spec.0, spec.1),
        )),
        upsert(upsert(s, registration_of(spec)), registration_of(spec)) == upsert(
            s,
            registration_of(spec),
        ),
        upsert(upsert(s, registration_of(spec)), registration_of(spec)).len() == upsert(
            s,
            registration_of(spec),
        ).len(),
        chord_count(upsert(upsert(s, registration_of(spec)), registration_of(spec))) == chord_count(
            upsert(s, registration_of(spec)),
        ),
{
    let e = registration_of(spec);
    let u = upsert(s, e);
    lemma_upsert_members(s, e);
    lemma_upsert_idempotent(s, e);
    if item_taken(u, spec.0, spec.1) {
        let i = choose|i: int| 0 <= i < u.len() && (#[trigger] u[i]).1 == spec.1 && u[i].0 != spec.0;
        if u[i] != e {
            let k = choose|k: int|
                0 <= k < s.len() && s[k] == u[i] && entry_key(s[k]) != entry_key(e);
            assert(s[k].1 == spec.1 && s[k].0 != spec.0);
        }
    }
    if requested_chord(spec.4) is Some && chord_taken(u, requested_chord(spec.4)->0, (spec.0, spec.1)) {
        let c = requested_chord(spec.4)->0;
        let i = choose|i: int|
            0 <= i < u.len() && (#[trigger] u[i]).4 == Some(c) && entry_key(u[i]) != (spec.0, spec.1);
        if u[i] != e {
            let k = choose|k: int|
                0 <= k < s.len() && s[k] == u[i] && entry_key(s[k]) != entry_key(e);
            assert(s[k].4 == Some(c) && entry_key(s[k]) != (spec.0, spec.1));
        }
    }
}

/// Registering an identity again with another chord (or none) releases the chord it held:
/// afterwards no registration holds it.
pub proof fn lemma_reregistration_releases_chord<H, E>(
    s: Seq<EntryView<H, E>>,
    e: EntryView<H, E>,
    chord: Seq<char>,
)
    requires
        registry_wf(s),
        e.4 != Some(chord),
        exists|i: int|
            0 <= i < s.len() && entry_key(#[trigger] s[i]) == entry_key(e) && s[i].4 == Some(chord),
    ensures
        forall|j: int| 0 <= j < upsert(s, e).len() ==> (#[trigger] upsert(s, e)[j]).4 != Some(chord),
{
    let u = upsert(s, e);
    lemma_upsert_members(s, e);
    let i = choose|i: int|
        0 <= i < s.len() && entry_key(#[trigger] s[i]) == entry_key(e) && s[i].4 == Some(chord);
    assert forall|j: int| 0 <= j < u.len() implies (#[trigger] u[j]).4 != Some(chord) by {
        if u[j] != e {
            let k = choose|k: int|
                0 <= k < s.len() && s[k] == u[j] && entry_key(s[k]) != entry_key(e);
            assert(k != i);
        }
    }
}

/// After a registration, selecting its item reaches exactly that registration (its
/// registrant and handler).
pub proof fn lemma_registered_item_is_dispatched<H, E>(s: Seq<EntryView<H, E>>, e: EntryView<H, E>)
    requires
        registry_wf(s),
        registry_wf(upsert(s, e)),
    ensures
        has_item(upsert(s, e), e.1),
        forall|i: int|
            0 <= i < upsert(s, e).len() && (#[trigger] upsert(s, e)[i]).1 == e.1 ==> upsert(s, e)[i]
                == e,
{
    let u = upsert(s, e);
    lemma_upsert_members(s, e);
    let j = choose|j: int| 0 <= j < u.len() && #[trigger] u[j] == e;
    assert(u[j].1 == e.1);
}

} // verus!

verus! {

/// A selectable item of the built menu.
#[derive(Debug, Clone, PartialEq, Eq)]
pub struct MenuItemNode {
    owner: String,
    item: String,
    label: String,
    accelerator: Option<String>,
}

/// A submenu of the built menu: its items first, then its nested submenus.
#[derive(Debug, PartialEq, Eq)]
pub struct SubmenuNode {
    label: String,
    children: Vec<MenuNode>,
}

/// A child of a submenu.
#[derive(Debug, PartialEq, Eq)]
pub enum MenuNode {
    /// A nested submenu.
    Submenu(SubmenuNode),
    /// A selectable item.
    Item(MenuItemNode),
}

/// The view of a node of the built menu.
pub enum NodeView {
    /// An item: registrant, item, label, chord.
    Item(Seq<char>, Seq<char>, Seq<char>, Option<Seq<char>>),
    /// A submenu: its label and children.
    Submenu(Seq<char>, Seq<NodeView>),
}

/// The view of an item node.
pub closed spec fn item_view(i: MenuItemNode) -> NodeView {
    NodeView::Item(i.owner@, i.item@, i.label@, text_view(i.accelerator))
}

/// The view of a node.
pub closed spec fn node_view(n: MenuNode) -> NodeView
    decreases n,
{
    match n {
        MenuNode::Item(i) => item_view(i),
        MenuNode::Submenu(s) => NodeView::Submenu(
            s.label@,
            Seq::new(
                s.children@.len(),
                |k: int|
                    if 0 <= k < s.children@.len() {
                        node_view(s.children@[k])
                    } else {
                        NodeView::Submenu(Seq::empty(), Seq::empty())
                    },
            ),
        ),
    }
}

} // verus!

verus! {

// ---------------------------------------------------------------------------
// The built menu, as specified from the registrations
// ---------------------------------------------------------------------------

/// Whether `path` lies strictly below `prefix`.
pub open spec fn below(path: Seq<Seq<char>>, prefix: Seq<Seq<char>>) -> bool {
    path.len() > prefix.len() && path.take(prefix.len() as int) == prefix
}

/// `t` (distinct, in text order) with `l` added at its place.
pub open spec fn insert_label(t: Seq<Seq<char>>, l: Seq<char>) -> Seq<Seq<char>>
    decreases t.len(),
{
    if t.len() == 0 {
        seq![l]
    } else if t[0] == l {
        t
    } else if text_le(l, t[0]) {
        seq![l] + t
    } else {
        seq![t[0]] + insert_label(t.drop_first(), l)
    }
}

/// The names of the submenus directly below `prefix`, each once, in text order.
pub open spec fn next_labels<H, E>(s: Seq<EntryView<H, E>>, prefix: Seq<Seq<char>>) -> Seq<Seq<char>>
    decreases s.len(),
{
    if s.len() == 0 {
        Seq::empty()
    } else {
        let t = next_labels(s.drop_last(), prefix);
        if below(s.last().2, prefix) {
            insert_label(t, s.last().2[prefix.len() as int])
        } else {
            t
        }
    }
}

/// The items registered exactly at `prefix`, in registration (identity) order.
pub open spec fn items_at<H, E>(s: Seq<EntryView<H, E>>, prefix: Seq<Seq<char>>) -> Seq<NodeView>
    decreases s.len(),
{
    if s.len() == 0 {
        Seq::empty()
    } else {
        let t = items_at(s.drop_last(), prefix);
        let e = s.last();
        if e.2 == prefix {
            t.push(NodeView::Item(e.0, e.1, e.3, e.4))
        } else {
            t
        }
    }
}

/// The deepest position of the registrations.
pub open spec fn max_depth<H, E>(s: Seq<EntryView<H, E>>) -> nat
    decreases s.len(),
{
    if s.len() == 0 {
        0
    } else {
        let m = max_depth(s.drop_last());
        if s.last().2.len() > m {
            s.last().2.len()
        } else {
            m
        }
    }
}

/// The submenu at `prefix`: its items in registration order, then its nested submenus by
/// name.
pub open spec fn expected_submenu<H, E>(s: Seq<EntryView<H, E>>, prefix: Seq<Seq<char>>, bound: nat) -> NodeView
    decreases bound - prefix.len(),
{
    let nested = if prefix.len() < bound {
        Seq::new(
            next_labels(s, prefix).len(),
            |k: int| expected_submenu(s, prefix.push(next_labels(s, prefix)[k]), bound),
        )
    } else {
        Seq::empty()
    };
    NodeView::Submenu(prefix.last(), items_at(s, prefix) + nested)
}

} // verus!

verus! {

/// The views of nodes.
pub closed spec fn nodes_view(cs: Seq<MenuNode>) -> Seq<NodeView> {
    cs.map_values(|n: MenuNode| node_view(n))
}

/// The view of a submenu.
pub closed spec fn submenu_view(s: SubmenuNode) -> NodeView {
    NodeView::Submenu(s.label@, nodes_view(s.children@))
}

proof fn lemma_submenu_view(s: SubmenuNode)
    ensures
        node_view(MenuNode::Submenu(s)) == submenu_view(s),
{
    let v = node_view(MenuNode::Submenu(s));
    match v {
        NodeView::Submenu(l, cs) => {
            assert(l == s.label@);
            assert(cs =~= nodes_view(s.children@));
        },
        NodeView::Item(..) => {},
    }
}

/// A copy of a list of strings.
fn copy_strings(v: &Vec<String>) -> (r: Vec<String>)
    ensures
        views(r@) == views(v@),
{
    let mut out: Vec<String> = Vec::new();
    let mut i: usize = 0;
    while i < v.len()
        invariant
            i <= v@.len(),
            views(out@) == views(v@).take(i as int),
        decreases v@.len() - i,
    {
        let ghost before = out@;
        out.push(v[i].clone());
        assert(views(out@) =~= views(before).push(v@[i as int]@));
        assert(views(v@).take(i + 1) =~= views(v@).take(i as int).push(v@[i as int]@));
        i = i + 1;
    }
    assert(views(v@).take(v@.len() as int) =~= views(v@));
    out
}

/// Whether two positions are the same.
fn same_path(a: &Vec<String>, b: &Vec<String>) -> (r: bool)
    ensures
        r == (views(a@) == views(b@)),
{
    if a.len() != b.len() {
        assert(views(a@).len() != views(b@).len());
        return false;
    }
    let mut i: usize = 0;
    while i < a.len()
        invariant
            i <= a@.len(),
            a@.len() == b@.len(),
            forall|k: int| 0 <= k < i ==> views(a@)[k] == views(b@)[k],
        decreases a@.len() - i,
    {
        if !str_equal(a[i].as_str(), b[i].as_str()) {
            assert(views(a@)[i as int] != views(b@)[i as int]);
            return false;
        }
        i = i + 1;
    }
    assert(views(a@) =~= views(b@));
    true
}

/// Whether `path` lies strictly below `prefix`.
fn is_below(path: &Vec<String>, prefix: &Vec<String>) -> (r: bool)
    ensures
        r == below(views(path@), views(prefix@)),
{
    if path.len() <= prefix.len() {
        return false;
    }
    let mut i: usize = 0;
    while i < prefix.len()
        invariant
            i <= prefix@.len(),
            prefix@.len() < path@.len(),
            forall|k: int| 0 <= k < i ==> views(path@)[k] == views(prefix@)[k],
        decreases prefix@.len() - i,
    {
        if !str_equal(path[i].as_str(), prefix[i].as_str()) {
            assert(views(path@).take(prefix@.len() as int)[i as int] != views(prefix@)[i as int]);
            return false;
        }
        i = i + 1;
    }
    assert(views(path@).take(prefix@.len() as int) =~= views(prefix@));
    true
}

/// Adds `l` to the distinct names `t` (in text order) at its place.
fn insert_label_exec(t: &mut Vec<String>, l: &str)
    ensures
        views(final(t)@) == insert_label(views(old(t)@), l@),
{
    let ghost s = views(t@);
    let mut p: usize = 0;
    assert(s.skip(0) =~= s);
    while p < t.len() && !str_equal(t[p].as_str(), l) && !text_le_exec(l, t[p].as_str())
        invariant
            p <= t@.len(),
            s == views(t@),
            insert_label(s, l@) == s.take(p as int) + insert_label(s.skip(p as int), l@),
        decreases t@.len() - p,
    {
        assert(s.skip(p as int)[0] == s[p as int]);
        assert(s.skip(p as int).drop_first() =~= s.skip(p + 1));
        assert(s.take(p + 1) =~= s.take(p as int) + seq![s[p as int]]);
        assert(insert_label(s.skip(p as int), l@) == seq![s[p as int]] + insert_label(s.skip(p + 1), l@));
        assert(s.take(p as int) + insert_label(s.skip(p as int), l@) =~= s.take(p + 1) + insert_label(
            s.skip(p + 1),
            l@,
        ));
        p = p + 1;
    }
    if p < t.len() && str_equal(t[p].as_str(), l) {
        assert(s.skip(p as int)[0] == s[p as int]);
        assert(s.take(p as int) + s.skip(p as int) =~= s);
        return;
    }
    let ghost before = t@;
    t.insert(p, l.to_owned());
    proof {
        if p < s.len() {
            assert(s.skip(p as int)[0] == s[p as int]);
        }
        assert(views(t@) =~= s.take(p as int) + (seq![l@] + s.skip(p as int)));
        if p == s.len() {
            assert(s.skip(p as int) =~= Seq::<Seq<char>>::empty());
        }
    }
}

impl<H, E> MenuRegistry<H, E> {
    /// The deepest position among the registrations.
    fn depth(&self) -> (r: usize)
        ensures
            r == max_depth(self@),
    {
        let mut m: usize = 0;
        let mut i: usize = 0;
        while i < self.entries.len()
            invariant
                i <= self.entries@.len(),
                m == max_depth(self@.take(i as int)),
            decreases self.entries@.len() - i,
        {
            assert(self@.take(i + 1).drop_last() =~= self@.take(i as int));
            assert(self@[i as int] == registration_view(self.entries@[i as int]));
            let len = self.entries[i].path.segments.len();
            if len > m {
                m = len;
            }
            i = i + 1;
        }
        assert(self@.take(self@.len() as int) =~= self@);
        m
    }

    /// The submenu at `prefix`: its items in registration order, then the nested submenus
    /// by name, each built the same way.
    fn build_submenu(&self, prefix: &Vec<String>, bound: usize) -> (r: SubmenuNode)
        requires
            prefix@.len() > 0,
            prefix@.len() <= bound,
        ensures
            submenu_view(r) == expected_submenu(self@, views(prefix@), bound as nat),
        decreases bound - prefix@.len(),
    {
        let ghost s = self@;
        let ghost pv = views(prefix@);
        let mut children: Vec<MenuNode> = Vec::new();
        let mut labels: Vec<String> = Vec::new();
        let mut i: usize = 0;
        while i < self.entries.len()
            invariant
                i <= self.entries@.len(),
                s == self@,
                pv == views(prefix@),
                nodes_view(children@) == items_at(s.take(i as int), pv),
                views(labels@) == next_labels(s.take(i as int), pv),
            decreases self.entries@.len() - i,
        {
            let entry = &self.entries[i];
            assert(s[i as int] == registration_view(self.entries@[i as int]));
            assert(s.take(i + 1).drop_last() =~= s.take(i as int));
            assert(s.take(i + 1).last() == s[i as int]);
            if same_path(&entry.path.segments, prefix) {
                let node = MenuItemNode {
                    owner: entry.owner.clone(),
                    item: entry.item.clone(),
                    label: entry.label.clone(),
                    accelerator: match &entry.accelerator {
                        Some(c) => Some(c.clone()),
                        None => None,
                    },
                };
                let ghost before = children@;
                children.push(MenuNode::Item(node));
                assert(nodes_view(children@) =~= nodes_view(before).push(node_view(MenuNode::Item(node))));
            }
            if is_below(&entry.path.segments, prefix) {
                let next = &entry.path.segments[prefix.len()];
                assert(views(entry.path.segments@)[prefix@.len() as int] == next@);
                insert_label_exec(&mut labels, next.as_str());
            }
            i = i + 1;
        }
        assert(s.take(s.len() as int) =~= s);
        let ghost items = nodes_view(children@);
        if prefix.len() < bound {
            let mut j: usize = 0;
            while j < labels.len()
                invariant
                    j <= labels@.len(),
                    s == self@,
                    pv == views(prefix@),
                    prefix@.len() < bound,
                    views(labels@) == next_labels(s, pv),
                    nodes_view(children@) == items + Seq::new(
                        j as nat,
                        |k: int| expected_submenu(s, pv.push(next_labels(s, pv)[k]), bound as nat),
                    ),
                decreases labels@.len() - j,
            {
                let mut child_prefix = copy_strings(prefix);
                child_prefix.push(labels[j].clone());
                assert(views(child_prefix@) =~= pv.push(views(labels@)[j as int]));
                let child = self.build_submenu(&child_prefix, bound);
                let ghost before = children@;
                children.push(MenuNode::Submenu(child));
                proof {
                    lemma_submenu_view(child);
                    assert(nodes_view(children@) =~= nodes_view(before).push(submenu_view(child)));
                    assert(nodes_view(children@) =~= items + Seq::new(
                        (j + 1) as nat,
                        |k: int| expected_submenu(s, pv.push(next_labels(s, pv)[k]), bound as nat),
                    ));
                }
                j = j + 1;
            }
        } else {
            assert(nodes_view(children@) =~= items + Seq::<NodeView>::empty());
        }
        let label = prefix[prefix.len() - 1].clone();
        let ghost nested = if prefix@.len() < bound {
            Seq::new(
                next_labels(s, pv).len(),
                |k: int| expected_submenu(s, pv.push(next_labels(s, pv)[k]), bound as nat),
            )
        } else {
            Seq::empty()
        };
        assert(items == items_at(s, pv));
        assert(nodes_view(children@) =~= items_at(s, pv) + nested);
        assert(label@ == pv.last());
        let r = SubmenuNode { label, children };
        proof {
            let e = expected_submenu(s, pv, bound as nat);
            match e {
                NodeView::Submenu(l, cs) => {
                    assert(l == pv.last());
                    assert(cs =~= items_at(s, pv) + nested);
                    assert(cs == nodes_view(r.children@));
                },
                NodeView::Item(..) => {},
            }
        }
        r
    }
}

} // verus!

verus! {

/// `t` with the top-level name `l` added at its place in the conventional order.
pub open spec fn insert_top(t: Seq<Seq<char>>, l: Seq<char>, placement: MenuPlacement) -> Seq<Seq<char>>
    decreases t.len(),
{
    if t.len() == 0 {
        seq![l]
    } else if key_le(sort_key(l, placement), sort_key(t[0], placement)) {
        seq![l] + t
    } else {
        seq![t[0]] + insert_top(t.drop_first(), l, placement)
    }
}

/// The top-level names in the conventional order: on macOS the application menu first, then
/// the known submenus in their order, then the others by name.
pub open spec fn top_order(names: Seq<Seq<char>>, placement: MenuPlacement) -> Seq<Seq<char>>
    decreases names.len(),
{
    if names.len() == 0 {
        Seq::empty()
    } else {
        insert_top(top_order(names.drop_last(), placement), names.last(), placement)
    }
}

/// How deep the built submenus go: the deepest registered position (at least one).
pub open spec fn model_depth<H, E>(s: Seq<EntryView<H, E>>) -> nat {
    if max_depth(s) > 0 {
        max_depth(s)
    } else {
        1
    }
}

/// The built menu: one submenu per top-level name, in the conventional order; no item
/// stands at the top level.
pub open spec fn expected_model<H, E>(s: Seq<EntryView<H, E>>, placement: MenuPlacement) -> Seq<NodeView> {
    let names = top_order(next_labels(s, Seq::empty()), placement);
    Seq::new(names.len(), |k: int| expected_submenu(s, seq![names[k]], model_depth(s)))
}

/// The menu built from the registrations. Its top level holds submenus only.
#[derive(Debug, PartialEq, Eq)]
pub struct MenuModel {
    top: Vec<SubmenuNode>,
}

impl View for MenuModel {
    type V = Seq<NodeView>;

    closed spec fn view(&self) -> Seq<NodeView> {
        self.top@.map_values(|n: SubmenuNode| submenu_view(n))
    }
}

impl MenuModel {
    /// The top-level submenus.
    pub fn top(&self) -> (r: &Vec<SubmenuNode>)
        ensures
            r@.map_values(|n: SubmenuNode| submenu_view(n)) == self@,
    {
        &self.top
    }
}

impl SubmenuNode {
    /// The submenu's name.
    pub fn label(&self) -> (r: &str)
        ensures
            submenu_view(*self) matches NodeView::Submenu(l, _) && r@ == l,
    {
        self.label.as_str()
    }

    /// The children: items first, then nested submenus.
    pub fn children(&self) -> (r: &Vec<MenuNode>)
        ensures
            submenu_view(*self) matches NodeView::Submenu(_, cs) && nodes_view(r@) == cs,
    {
        &self.children
    }
}

impl MenuItemNode {
    /// The registrant.
    pub fn owner(&self) -> (r: &str)
        ensures
            item_view(*self) matches NodeView::Item(o, _, _, _) && r@ == o,
    {
        self.owner.as_str()
    }

    /// The item identifier.
    pub fn item(&self) -> (r: &str)
        ensures
            item_view(*self) matches NodeView::Item(_, i, _, _) && r@ == i,
    {
        self.item.as_str()
    }

    /// The label.
    pub fn label(&self) -> (r: &str)
        ensures
            item_view(*self) matches NodeView::Item(_, _, l, _) && r@ == l,
    {
        self.label.as_str()
    }

    /// The assigned chord (canonical form).
    pub fn accelerator(&self) -> (r: Option<&str>)
        ensures
            item_view(*self) matches NodeView::Item(_, _, _, c) && match r {
                Some(t) => c == Some(t@),
                None => c is None,
            },
    {
        match &self.accelerator {
            Some(c) => Some(c.as_str()),
            None => None,
        }
    }
}

/// Adds a top-level name at its place in the conventional order.
fn insert_top_exec(t: &mut Vec<String>, l: &str, placement: MenuPlacement)
    ensures
        views(final(t)@) == insert_top(views(old(t)@), l@, placement),
{
    let ghost s = views(t@);
    let mut p: usize = 0;
    assert(s.skip(0) =~= s);
    while p < t.len() && !top_level_le(l, t[p].as_str(), placement)
        invariant
            p <= t@.len(),
            s == views(t@),
            insert_top(s, l@, placement) == s.take(p as int) + insert_top(s.skip(p as int), l@, placement),
        decreases t@.len() - p,
    {
        assert(s.skip(p as int)[0] == s[p as int]);
        assert(s.skip(p as int).drop_first() =~= s.skip(p + 1));
        assert(s.take(p + 1) =~= s.take(p as int) + seq![s[p as int]]);
        assert(s.take(p as int) + insert_top(s.skip(p as int), l@, placement) =~= s.take(p + 1)
            + insert_top(s.skip(p + 1), l@, placement));
        p = p + 1;
    }
    t.insert(p, l.to_owned());
    proof {
        if p < s.len() {
            assert(s.skip(p as int)[0] == s[p as int]);
        } else {
            assert(s.skip(p as int) =~= Seq::<Seq<char>>::empty());
        }
        assert(views(t@) =~= s.take(p as int) + (seq![l@] + s.skip(p as int)));
    }
}

impl<H, E> MenuRegistry<H, E> {
    /// Builds the menu from the registrations: the top-level submenus in the conventional
    /// order for `placement`; under each submenu its items in registration order, then its
    /// nested submenus by name.
    pub fn model(&self, placement: MenuPlacement) -> (r: MenuModel)
        ensures
            r@ == expected_model(self@, placement),
    {
        let ghost s = self@;
        let depth = self.depth();
        let bound: usize = if depth > 0 {
            depth
        } else {
            1
        };
        let empty: Vec<String> = Vec::new();
        let mut names: Vec<String> = Vec::new();
        let mut i: usize = 0;
        while i < self.entries.len()
            invariant
                i <= self.entries@.len(),
                s == self@,
                views(empty@) == Seq::<Seq<char>>::empty(),
                views(names@) == next_labels(s.take(i as int), Seq::empty()),
            decreases self.entries@.len() - i,
        {
            let entry = &self.entries[i];
            assert(s[i as int] == registration_view(self.entries@[i as int]));
            assert(s.take(i + 1).drop_last() =~= s.take(i as int));
            assert(s.take(i + 1).last() == s[i as int]);
            if is_below(&entry.path.segments, &empty) {
                assert(views(entry.path.segments@)[0] == entry.path.segments@[0]@);
                insert_label_exec(&mut names, entry.path.segments[0].as_str());
            }
            i = i + 1;
        }
        assert(s.take(s.len() as int) =~= s);
        let ghost labels = next_labels(s, Seq::empty());
        let mut ordered: Vec<String> = Vec::new();
        let mut j: usize = 0;
        assert(labels.take(0) =~= Seq::<Seq<char>>::empty());
        while j < names.len()
            invariant
                j <= names@.len(),
                views(names@) == labels,
                views(ordered@) == top_order(labels.take(j as int), placement),
            decreases names@.len() - j,
        {
            assert(labels.take(j + 1).drop_last() =~= labels.take(j as int));
            assert(labels.take(j + 1).last() == names@[j as int]@);
            insert_top_exec(&mut ordered, names[j].as_str(), placement);
            j = j + 1;
        }
        assert(labels.take(labels.len() as int) =~= labels);
        let ghost order = top_order(labels, placement);
        let mut top: Vec<SubmenuNode> = Vec::new();
        let mut k: usize = 0;
        while k < ordered.len()
            invariant
                k <= ordered@.len(),
                s == self@,
                bound as nat == model_depth(s),
                bound >= 1,
                views(ordered@) == order,
                order == top_order(next_labels(s, Seq::empty()), placement),
                top@.map_values(|n: SubmenuNode| submenu_view(n)) == Seq::new(
                    k as nat,
                    |q: int| expected_submenu(s, seq![order[q]], model_depth(s)),
                ),
            decreases ordered@.len() - k,
        {
            let mut prefix: Vec<String> = Vec::new();
            prefix.push(ordered[k].clone());
            assert(views(prefix@) =~= seq![order[k as int]]);
            let node = self.build_submenu(&prefix, bound);
            let ghost before = top@;
            top.push(node);
            assert(top@.map_values(|n: SubmenuNode| submenu_view(n)) =~= before.map_values(
                |n: SubmenuNode| submenu_view(n),
            ).push(submenu_view(node)));
            assert(submenu_view(node) == expected_submenu(s, seq![order[k as int]], model_depth(s)));
            assert(top@.map_values(|n: SubmenuNode| submenu_view(n)) =~= Seq::new(
                (k + 1) as nat,
                |q: int| expected_submenu(s, seq![order[q]], model_depth(s)),
            ));
            k = k + 1;
        }
        let r = MenuModel { top };
        assert(r@ =~= expected_model(s, placement));
        r
    }
}

} // verus!

verus! {

/// The items of a node in depth-first order.
pub open spec fn tree_items(v: NodeView) -> Seq<NodeView>
    decreases v,
{
    match v {
        NodeView::Item(..) => seq![v],
        NodeView::Submenu(_, cs) => item_pieces(cs).flatten(),
    }
}

/// The items of each child, depth first.
pub open spec fn item_pieces(cs: Seq<NodeView>) -> Seq<Seq<NodeView>>
    decreases cs,
{
    Seq::new(
        cs.len(),
        |k: int|
            if 0 <= k < cs.len() {
                tree_items(cs[k])
            } else {
                Seq::empty()
            },
    )
}

/// The items of the built menu in depth-first order.
pub open spec fn model_items(top: Seq<NodeView>) -> Seq<NodeView> {
    Seq::new(top.len(), |k: int| tree_items(top[k])).flatten()
}

proof fn lemma_tree_items_of_submenu(l: Seq<char>, cs: Seq<NodeView>)
    ensures
        tree_items(NodeView::Submenu(l, cs)) == Seq::new(cs.len(), |k: int| tree_items(cs[k])).flatten(),
{
    assert(item_pieces(cs) =~= Seq::new(cs.len(), |k: int| tree_items(cs[k])));
}

/// Flattening one more piece appends it.
proof fn lemma_flatten_push(parts: Seq<Seq<NodeView>>, last: Seq<NodeView>)
    ensures
        parts.push(last).flatten() == parts.flatten() + last,
{
    parts.lemma_flatten_and_flatten_alt_are_equivalent();
    parts.push(last).lemma_flatten_and_flatten_alt_are_equivalent();
    assert(parts.push(last).drop_last() =~= parts);
}

/// Appends the items of `submenu`, depth first.
fn collect_items<'a>(submenu: &'a SubmenuNode, out: &mut Vec<&'a MenuItemNode>)
    ensures
        final(out)@.map_values(|i: &MenuItemNode| item_view(*i)) == old(out)@.map_values(
            |i: &MenuItemNode| item_view(*i),
        ) + tree_items(submenu_view(*submenu)),
    decreases submenu,
{
    let ghost start = out@.map_values(|i: &MenuItemNode| item_view(*i));
    let ghost cs = nodes_view(submenu.children@);
    let mut k: usize = 0;
    while k < submenu.children.len()
        invariant
            k <= submenu.children@.len(),
            cs == nodes_view(submenu.children@),
            out@.map_values(|i: &MenuItemNode| item_view(*i)) == start + Seq::new(
                k as nat,
                |q: int| tree_items(cs[q]),
            ).flatten(),
        decreases submenu.children@.len() - k,
    {
        let ghost before = out@.map_values(|i: &MenuItemNode| item_view(*i));
        let ghost done = Seq::new(k as nat, |q: int| tree_items(cs[q]));
        assert(Seq::new((k + 1) as nat, |q: int| tree_items(cs[q])) =~= done.push(tree_items(cs[k as int])));
        proof {
            lemma_flatten_push(done, tree_items(cs[k as int]));
        }
        match &submenu.children[k] {
            MenuNode::Item(item) => {
                out.push(item);
                assert(cs[k as int] == item_view(*item));
                assert(tree_items(item_view(*item)) == seq![item_view(*item)]);
                assert(out@.map_values(|i: &MenuItemNode| item_view(*i)) =~= before.push(item_view(*item)));
            },
            MenuNode::Submenu(nested) => {
                assert(decreases_to!(*submenu => submenu.children));
                collect_items(nested, out);
                proof {
                    lemma_submenu_view(*nested);
                }
                assert(cs[k as int] == submenu_view(*nested));
            },
        }
        assert(out@.map_values(|i: &MenuItemNode| item_view(*i)) =~= start + Seq::new(
            (k + 1) as nat,
            |q: int| tree_items(cs[q]),
        ).flatten());
        k = k + 1;
    }
    proof {
        lemma_tree_items_of_submenu(submenu.label@, cs);
        assert(Seq::new(cs.len(), |q: int| tree_items(cs[q])) =~= Seq::new(
            submenu.children@.len() as nat,
            |q: int| tree_items(cs[q]),
        ));
    }
}

impl MenuModel {
    /// Every item of the menu, depth first (registration order within a submenu).
    pub fn items(&self) -> (r: Vec<&MenuItemNode>)
        ensures
            r@.map_values(|i: &MenuItemNode| item_view(*i)) == model_items(self@),
    {
        let mut out: Vec<&MenuItemNode> = Vec::new();
        let ghost tops = self@;
        let mut k: usize = 0;
        while k < self.top.len()
            invariant
                k <= self.top@.len(),
                tops == self@,
                out@.map_values(|i: &MenuItemNode| item_view(*i)) == Seq::new(
                    k as nat,
                    |q: int| tree_items(tops[q]),
                ).flatten(),
            decreases self.top@.len() - k,
        {
            let ghost done = Seq::new(k as nat, |q: int| tree_items(tops[q]));
            assert(Seq::new((k + 1) as nat, |q: int| tree_items(tops[q])) =~= done.push(
                tree_items(tops[k as int]),
            ));
            proof {
                lemma_flatten_push(done, tree_items(tops[k as int]));
            }
            assert(tops[k as int] == submenu_view(self.top@[k as int]));
            collect_items(&self.top[k], &mut out);
            k = k + 1;
        }
        assert(Seq::new(self.top@.len() as nat, |q: int| tree_items(tops[q])) =~= Seq::new(
            tops.len(),
            |q: int| tree_items(tops[q]),
        ));
        out
    }
}

} // verus!

verus! {

proof fn lemma_insert_label_contains(t: Seq<Seq<char>>, l: Seq<char>)
    ensures
        insert_label(t, l).contains(l),
        forall|x: Seq<char>| t.contains(x) ==> insert_label(t, l).contains(x),
    decreases t.len(),
{
    let u = insert_label(t, l);
    if t.len() == 0 {
        assert(u[0] == l);
    } else if t[0] == l {
        assert(u[0] == l);
    } else if text_le(l, t[0]) {
        assert(u[0] == l);
        assert forall|x: Seq<char>| t.contains(x) implies u.contains(x) by {
            let i = choose|i: int| 0 <= i < t.len() && t[i] == x;
            assert(u[i + 1] == x);
        }
    } else {
        let r = t.drop_first();
        lemma_insert_label_contains(r, l);
        let w = insert_label(r, l);
        let j = choose|j: int| 0 <= j < w.len() && w[j] == l;
        assert(u[j + 1] == l);
        assert forall|x: Seq<char>| t.contains(x) implies u.contains(x) by {
            let i = choose|i: int| 0 <= i < t.len() && t[i] == x;
            if i == 0 {
                assert(u[0] == x);
            } else {
                assert(r[i - 1] == x);
                assert(r.contains(x));
                let q = choose|q: int| 0 <= q < w.len() && w[q] == x;
                assert(u[q + 1] == x);
            }
        }
    }
}

proof fn lemma_insert_top_contains(t: Seq<Seq<char>>, l: Seq<char>, placement: MenuPlacement)
    ensures
        insert_top(t, l, placement).contains(l),
        forall|x: Seq<char>| t.contains(x) ==> insert_top(t, l, placement).contains(x),
    decreases t.len(),
{
    let u = insert_top(t, l, placement);
    if t.len() == 0 {
        assert(u[0] == l);
    } else if key_le(sort_key(l, placement), sort_key(t[0], placement)) {
        assert(u[0] == l);
        assert forall|x: Seq<char>| t.contains(x) implies u.contains(x) by {
            let i = choose|i: int| 0 <= i < t.len() && t[i] == x;
            assert(u[i + 1] == x);
        }
    } else {
        let r = t.drop_first();
        lemma_insert_top_contains(r, l, placement);
        let w = insert_top(r, l, placement);
        let j = choose|j: int| 0 <= j < w.len() && w[j] == l;
        assert(u[j + 1] == l);
        assert forall|x: Seq<char>| t.contains(x) implies u.contains(x) by {
            let i = choose|i: int| 0 <= i < t.len() && t[i] == x;
            if i == 0 {
                assert(u[0] == x);
            } else {
                assert(r[i - 1] == x);
                assert(r.contains(x));
                let q = choose|q: int| 0 <= q < w.len() && w[q] == x;
                assert(u[q + 1] == x);
            }
        }
    }
}

proof fn lemma_top_order_contains(names: Seq<Seq<char>>, x: Seq<char>, placement: MenuPlacement)
    requires
        names.contains(x),
    ensures
        top_order(names, placement).contains(x),
    decreases names.len(),
{
    let init = names.drop_last();
    lemma_insert_top_contains(top_order(init, placement), names.last(), placement);
    if x != names.last() {
        let i = choose|i: int| 0 <= i < names.len() && names[i] == x;
        assert(i < names.len() - 1);
        assert(init[i] == x);
        lemma_top_order_contains(init, x, placement);
    }
}

proof fn lemma_next_labels_contains<H, E>(s: Seq<EntryView<H, E>>, prefix: Seq<Seq<char>>, i: int)
    requires
        0 <= i < s.len(),
        below(s[i].2, prefix),
    ensures
        next_labels(s, prefix).contains(s[i].2[prefix.len() as int]),
    decreases s.len(),
{
    let t = next_labels(s.drop_last(), prefix);
    if below(s.last().2, prefix) {
        lemma_insert_label_contains(t, s.last().2[prefix.len() as int]);
    }
    if i < s.len() - 1 {
        assert(s.drop_last()[i] == s[i]);
        lemma_next_labels_contains(s.drop_last(), prefix, i);
    }
}

proof fn lemma_items_at_contains<H, E>(s: Seq<EntryView<H, E>>, i: int)
    requires
        0 <= i < s.len(),
    ensures
        items_at(s, s[i].2).contains(NodeView::Item(s[i].0, s[i].1, s[i].3, s[i].4)),
    decreases s.len(),
{
    let p = s[i].2;
    let t = items_at(s.drop_last(), p);
    let u = items_at(s, p);
    if i == s.len() - 1 {
        assert(u[u.len() - 1] == NodeView::Item(s[i].0, s[i].1, s[i].3, s[i].4));
    } else {
        assert(s.drop_last()[i] == s[i]);
        lemma_items_at_contains(s.drop_last(), i);
        let j = choose|j: int| 0 <= j < t.len() && t[j] == NodeView::Item(s[i].0, s[i].1, s[i].3, s[i].4);
        assert(u[j] == t[j]);
    }
}

/// Every registered item is placed in the built menu: the submenu it named first is a
/// top-level submenu, and the item is listed at the position it asked for.
pub proof fn lemma_registered_item_is_placed<H, E>(
    s: Seq<EntryView<H, E>>,
    placement: MenuPlacement,
    i: int,
)
    requires
        0 <= i < s.len(),
        s[i].2.len() > 0,
    ensures
        top_order(next_labels(s, Seq::empty()), placement).contains(s[i].2[0]),
        items_at(s, s[i].2).contains(NodeView::Item(s[i].0, s[i].1, s[i].3, s[i].4)),
{
    assert(s[i].2.take(0) =~= Seq::<Seq<char>>::empty());
    lemma_next_labels_contains(s, Seq::empty(), i);
    lemma_top_order_contains(next_labels(s, Seq::empty()), s[i].2[0], placement);
    lemma_items_at_contains(s, i);
}

} // verus!

verus! {

// ---------------------------------------------------------------------------
// The top level of the built menu
// ---------------------------------------------------------------------------

/// Whether the names stand in the conventional top-level order.
pub open spec fn top_sorted(t: Seq<Seq<char>>, placement: MenuPlacement) -> bool {
    forall|i: int, j: int|
        0 <= i < j < t.len() ==> key_le(sort_key(#[trigger] t[i], placement), sort_key(#[trigger] t[j], placement))
}

/// Whether no name occurs twice.
pub open spec fn distinct_names(t: Seq<Seq<char>>) -> bool {
    forall|i: int, j: int| 0 <= i < j < t.len() ==> #[trigger] t[i] != #[trigger] t[j]
}

/// Whether the names are in strictly increasing text order.
pub open spec fn strictly_text_sorted(t: Seq<Seq<char>>) -> bool {
    forall|i: int, j: int| 0 <= i < j < t.len() ==> text_le(#[trigger] t[i], #[trigger] t[j]) && t[i] != t[j]
}

proof fn lemma_key_le_total(a: (u8, u8, Seq<char>), b: (u8, u8, Seq<char>))
    ensures
        key_le(a, b) || key_le(b, a),
{
    lemma_text_le_total(a.2, b.2);
}

proof fn lemma_key_le_transitive(a: (u8, u8, Seq<char>), b: (u8, u8, Seq<char>), c: (u8, u8, Seq<char>))
    requires
        key_le(a, b),
        key_le(b, c),
    ensures
        key_le(a, c),
{
    if a.0 == b.0 && b.0 == c.0 && a.1 == b.1 && b.1 == c.1 {
        lemma_text_le_transitive(a.2, b.2, c.2);
    }
}

proof fn lemma_insert_label_facts(t: Seq<Seq<char>>, l: Seq<char>)
    requires
        strictly_text_sorted(t),
    ensures
        strictly_text_sorted(insert_label(t, l)),
        forall|x: Seq<char>| #[trigger] insert_label(t, l).contains(x) <==> (x == l || t.contains(x)),
    decreases t.len(),
{
    let u = insert_label(t, l);
    if t.len() == 0 {
        assert(u =~= seq![l]);
        assert forall|x: Seq<char>| #[trigger] u.contains(x) <==> (x == l || t.contains(x)) by {
            if x == l {
                assert(u[0] == x);
            }
        }
    } else if t[0] == l {
        assert forall|x: Seq<char>| #[trigger] u.contains(x) <==> (x == l || t.contains(x)) by {
            if x == l {
                assert(t[0] == x);
            }
        }
    } else if text_le(l, t[0]) {
        assert(u =~= seq![l] + t);
        assert forall|i: int, j: int| 0 <= i < j < u.len() implies text_le(#[trigger] u[i], #[trigger] u[j])
            && u[i] != u[j] by {
            if i == 0 {
                if j > 1 {
                    assert(u[j] == t[j - 1]);
                    lemma_text_le_transitive(l, t[0], t[j - 1]);
                    if l == t[j - 1] {
                        lemma_text_le_antisymmetric(l, t[0]);
                    }
                }
            } else {
                assert(u[i] == t[i - 1] && u[j] == t[j - 1]);
            }
        }
        assert forall|x: Seq<char>| #[trigger] u.contains(x) <==> (x == l || t.contains(x)) by {
            if u.contains(x) {
                let k = choose|k: int| 0 <= k < u.len() && u[k] == x;
                if k > 0 {
                    assert(t[k - 1] == x);
                }
            }
            if x == l {
                assert(u[0] == x);
            } else if t.contains(x) {
                let k = choose|k: int| 0 <= k < t.len() && t[k] == x;
                assert(u[k + 1] == x);
            }
        }
    } else {
        let r = t.drop_first();
        assert forall|i: int, j: int| 0 <= i < j < r.len() implies text_le(#[trigger] r[i], #[trigger] r[j])
            && r[i] != r[j] by {
            assert(r[i] == t[i + 1] && r[j] == t[j + 1]);
        }
        lemma_insert_label_facts(r, l);
        let w = insert_label(r, l);
        assert(u =~= seq![t[0]] + w);
        lemma_text_le_total(l, t[0]);
        assert forall|i: int, j: int| 0 <= i < j < u.len() implies text_le(#[trigger] u[i], #[trigger] u[j])
            && u[i] != u[j] by {
            if i == 0 {
                assert(u[j] == w[j - 1]);
                assert(w.contains(w[j - 1]));
                if w[j - 1] != l {
                    let k = choose|k: int| 0 <= k < r.len() && r[k] == w[j - 1];
                    assert(t[k + 1] == w[j - 1]);
                }
            } else {
                assert(u[i] == w[i - 1] && u[j] == w[j - 1]);
            }
        }
        assert forall|x: Seq<char>| #[trigger] u.contains(x) <==> (x == l || t.contains(x)) by {
            if u.contains(x) {
                let k = choose|k: int| 0 <= k < u.len() && u[k] == x;
                if k == 0 {
                    assert(t[0] == x);
                } else {
                    assert(w[k - 1] == x);
                    assert(w.contains(x));
                    if x != l {
                        let q = choose|q: int| 0 <= q < r.len() && r[q] == x;
                        assert(t[q + 1] == x);
                    }
                }
            }
            if x == l {
                assert(w.contains(l));
                let q = choose|q: int| 0 <= q < w.len() && w[q] == l;
                assert(u[q + 1] == x);
            } else if t.contains(x) {
                let k = choose|k: int| 0 <= k < t.len() && t[k] == x;
                if k == 0 {
                    assert(u[0] == x);
                } else {
                    assert(r[k - 1] == x);
                    assert(r.contains(x));
                    assert(w.contains(x));
                    let q = choose|q: int| 0 <= q < w.len() && w[q] == x;
                    assert(u[q + 1] == x);
                }
            }
        }
    }
}

proof fn lemma_next_labels_facts<H, E>(s: Seq<EntryView<H, E>>, prefix: Seq<Seq<char>>)
    ensures
        strictly_text_sorted(next_labels(s, prefix)),
        forall|x: Seq<char>| #[trigger] next_labels(s, prefix).contains(x) ==> exists|i: int|
            0 <= i < s.len() && below(#[trigger] s[i].2, prefix) && s[i].2[prefix.len() as int] == x,
    decreases s.len(),
{
    if s.len() > 0 {
        let init = s.drop_last();
        lemma_next_labels_facts(init, prefix);
        let t = next_labels(init, prefix);
        let u = next_labels(s, prefix);
        if below(s.last().2, prefix) {
            lemma_insert_label_facts(t, s.last().2[prefix.len() as int]);
        }
        assert forall|x: Seq<char>| #[trigger] u.contains(x) implies exists|i: int|
            0 <= i < s.len() && below(#[trigger] s[i].2, prefix) && s[i].2[prefix.len() as int] == x by {
            if below(s.last().2, prefix) && x == s.last().2[prefix.len() as int] {
                assert(s[s.len() - 1] == s.last());
            } else {
                assert(t.contains(x));
                let i = choose|i: int|
                    0 <= i < init.len() && below(#[trigger] init[i].2, prefix) && init[i].2[prefix.len() as int] == x;
                assert(s[i] == init[i]);
            }
        }
    }
}

proof fn lemma_insert_top_facts(t: Seq<Seq<char>>, l: Seq<char>, placement: MenuPlacement)
    requires
        top_sorted(t, placement),
    ensures
        top_sorted(insert_top(t, l, placement), placement),
        forall|x: Seq<char>| #[trigger] insert_top(t, l, placement).contains(x) <==> (x == l || t.contains(x)),
        distinct_names(t) && !t.contains(l) ==> distinct_names(insert_top(t, l, placement)),
    decreases t.len(),
{
    let u = insert_top(t, l, placement);
    if t.len() == 0 {
        assert(u =~= seq![l]);
        assert forall|x: Seq<char>| #[trigger] u.contains(x) <==> (x == l || t.contains(x)) by {
            if x == l {
                assert(u[0] == x);
            }
        }
    } else if key_le(sort_key(l, placement), sort_key(t[0], placement)) {
        assert(u =~= seq![l] + t);
        assert forall|i: int, j: int| 0 <= i < j < u.len() implies key_le(
            sort_key(#[trigger] u[i], placement),
            sort_key(#[trigger] u[j], placement),
        ) by {
            if i == 0 {
                if j > 1 {
                    assert(u[j] == t[j - 1]);
                    lemma_key_le_transitive(sort_key(l, placement), sort_key(t[0], placement), sort_key(t[j - 1], placement));
                }
            } else {
                assert(u[i] == t[i - 1] && u[j] == t[j - 1]);
            }
        }
        assert forall|x: Seq<char>| #[trigger] u.contains(x) <==> (x == l || t.contains(x)) by {
            if u.contains(x) {
                let k = choose|k: int| 0 <= k < u.len() && u[k] == x;
                if k > 0 {
                    assert(t[k - 1] == x);
                }
            }
            if x == l {
                assert(u[0] == x);
            } else if t.contains(x) {
                let k = choose|k: int| 0 <= k < t.len() && t[k] == x;
                assert(u[k + 1] == x);
            }
        }
        if distinct_names(t) && !t.contains(l) {
            assert forall|i: int, j: int| 0 <= i < j < u.len() implies #[trigger] u[i] != #[trigger] u[j] by {
                if i == 0 {
                    assert(u[j] == t[j - 1]);
                    assert(t.contains(t[j - 1]));
                } else {
                    assert(u[i] == t[i - 1] && u[j] == t[j - 1]);
                }
            }
        }
    } else {
        let r = t.drop_first();
        assert forall|i: int, j: int| 0 <= i < j < r.len() implies key_le(
            sort_key(#[trigger] r[i], placement),
            sort_key(#[trigger] r[j], placement),
        ) by {
            assert(r[i] == t[i + 1] && r[j] == t[j + 1]);
        }
        lemma_insert_top_facts(r, l, placement);
        let w = insert_top(r, l, placement);
        assert(u =~= seq![t[0]] + w);
        lemma_key_le_total(sort_key(l, placement), sort_key(t[0], placement));
        assert forall|i: int, j: int| 0 <= i < j < u.len() implies key_le(
            sort_key(#[trigger] u[i], placement),
            sort_key(#[trigger] u[j], placement),
        ) by {
            if i == 0 {
                assert(u[j] == w[j - 1]);
                assert(w.contains(w[j - 1]));
                if w[j - 1] != l {
                    let k = choose|k: int| 0 <= k < r.len() && r[k] == w[j - 1];
                    assert(t[k + 1] == w[j - 1]);
                }
            } else {
                assert(u[i] == w[i - 1] && u[j] == w[j - 1]);
            }
        }
        assert forall|x: Seq<char>| #[trigger] u.contains(x) <==> (x == l || t.contains(x)) by {
            if u.contains(x) {
                let k = choose|k: int| 0 <= k < u.len() && u[k] == x;
                if k == 0 {
                    assert(t[0] == x);
                } else {
                    assert(w[k - 1] == x);
                    assert(w.contains(x));
                    if x != l {
                        let q = choose|q: int| 0 <= q < r.len() && r[q] == x;
                        assert(t[q + 1] == x);
                    }
                }
            }
            if x == l {
                assert(w.contains(l));
                let q = choose|q: int| 0 <= q < w.len() && w[q] == l;
                assert(u[q + 1] == x);
            } else if t.contains(x) {
                let k = choose|k: int| 0 <= k < t.len() && t[k] == x;
                if k == 0 {
                    assert(u[0] == x);
                } else {
                    assert(r[k - 1] == x);
                    assert(r.contains(x));
                    assert(w.contains(x));
                    let q = choose|q: int| 0 <= q < w.len() && w[q] == x;
                    assert(u[q + 1] == x);
                }
            }
        }
        if distinct_names(t) && !t.contains(l) {
            assert forall|i: int, j: int| 0 <= i < j < r.len() implies #[trigger] r[i] != #[trigger] r[j] by {
                assert(r[i] == t[i + 1] && r[j] == t[j + 1]);
            }
            if r.contains(l) {
                let k = choose|k: int| 0 <= k < r.len() && r[k] == l;
                assert(t[k + 1] == l);
            }
            assert(t[0] != l);
            assert forall|i: int, j: int| 0 <= i < j < u.len() implies #[trigger] u[i] != #[trigger] u[j] by {
                if i == 0 {
                    assert(u[j] == w[j - 1]);
                    assert(w.contains(w[j - 1]));
                    if w[j - 1] == t[0] {
                        let k = choose|k: int| 0 <= k < r.len() && r[k] == w[j - 1];
                        assert(t[k + 1] == t[0]);
                    }
                } else {
                    assert(u[i] == w[i - 1] && u[j] == w[j - 1]);
                }
            }
        }
    }
}

proof fn lemma_top_order_facts(names: Seq<Seq<char>>, placement: MenuPlacement)
    ensures
        top_sorted(top_order(names, placement), placement),
        forall|x: Seq<char>| #[trigger] top_order(names, placement).contains(x) <==> names.contains(x),
        distinct_names(names) ==> distinct_names(top_order(names, placement)),
    decreases names.len(),
{
    if names.len() > 0 {
        let init = names.drop_last();
        let last = names.last();
        lemma_top_order_facts(init, placement);
        let t = top_order(init, placement);
        lemma_insert_top_facts(t, last, placement);
        let u = top_order(names, placement);
        assert forall|x: Seq<char>| #[trigger] u.contains(x) <==> names.contains(x) by {
            if u.contains(x) && x != last {
                assert(t.contains(x));
                assert(init.contains(x));
                let k = choose|k: int| 0 <= k < init.len() && init[k] == x;
                assert(names[k] == x);
            }
            if names.contains(x) {
                let k = choose|k: int| 0 <= k < names.len() && names[k] == x;
                if k < names.len() - 1 {
                    assert(init[k] == x);
                    assert(init.contains(x));
                }
            }
        }
        if distinct_names(names) {
            assert forall|i: int, j: int| 0 <= i < j < init.len() implies #[trigger] init[i] != #[trigger] init[j] by {
                assert(init[i] == names[i] && init[j] == names[j]);
            }
            if t.contains(last) {
                assert(init.contains(last));
                let k = choose|k: int| 0 <= k < init.len() && init[k] == last;
                assert(names[k] == names[names.len() - 1]);
            }
        }
    }
}

/// The top level of the built menu holds one submenu for each first-level name of the
/// registrations and no other, each name once, in the conventional order of
/// `top_level_sort_key`: on macOS the application menu first, then ファイル, 編集, 表示 and
/// ヘルプ in that order, then the other names by text.
pub proof fn lemma_top_level_order<H, E>(s: Seq<EntryView<H, E>>, placement: MenuPlacement)
    ensures
        ({
            let names = top_order(next_labels(s, Seq::empty()), placement);
            &&& expected_model(s, placement).len() == names.len()
            &&& forall|k: int|
                0 <= k < names.len() ==> (#[trigger] expected_model(s, placement)[k] matches NodeView::Submenu(
                    label,
                    _,
                ) && label == names[k])
            &&& top_sorted(names, placement)
            &&& distinct_names(names)
            &&& forall|x: Seq<char>| #[trigger] names.contains(x) <==> exists|i: int|
                0 <= i < s.len() && (#[trigger] s[i].2).len() > 0 && s[i].2[0] == x
        }),
{
    let empty = Seq::<Seq<char>>::empty();
    let labels = next_labels(s, empty);
    let names = top_order(labels, placement);
    lemma_next_labels_facts(s, empty);
    lemma_top_order_facts(labels, placement);
    let m = expected_model(s, placement);
    assert forall|k: int| 0 <= k < names.len() implies (#[trigger] m[k] matches NodeView::Submenu(label, _)
        && label == names[k]) by {
        assert(seq![names[k]].last() == names[k]);
    }
    assert forall|x: Seq<char>| #[trigger] names.contains(x) <==> exists|i: int|
        0 <= i < s.len() && (#[trigger] s[i].2).len() > 0 && s[i].2[0] == x by {
        if names.contains(x) {
            assert(labels.contains(x));
            let i = choose|i: int| 0 <= i < s.len() && below(#[trigger] s[i].2, empty) && s[i].2[0] == x;
            assert(s[i].2.len() > 0);
        }
        if exists|i: int| 0 <= i < s.len() && (#[trigger] s[i].2).len() > 0 && s[i].2[0] == x {
            let i = choose|i: int| 0 <= i < s.len() && (#[trigger] s[i].2).len() > 0 && s[i].2[0] == x;
            assert(s[i].2.take(0) =~= empty);
            lemma_next_labels_contains(s, empty, i);
        }
    }
}

} // verus!

verus! {

// ---------------------------------------------------------------------------
// Every registered item once in the built menu
// ---------------------------------------------------------------------------

/// The item node of a registration.
pub open spec fn entry_item<H, E>(e: EntryView<H, E>) -> NodeView {
    NodeView::Item(e.0, e.1, e.3, e.4)
}

/// The items of the registrations whose position satisfies `p`.
pub open spec fn items_where<H, E>(s: Seq<EntryView<H, E>>, p: spec_fn(Seq<Seq<char>>) -> bool) -> Multiset<
    NodeView,
>
    decreases s.len(),
{
    if s.len() == 0 {
        Multiset::empty()
    } else {
        let rest = items_where(s.drop_last(), p);
        if p(s.last().2) {
            rest.insert(entry_item(s.last()))
        } else {
            rest
        }
    }
}

/// Whether `path` is `prefix` or lies below it, at most `bound` deep.
pub open spec fn within(path: Seq<Seq<char>>, prefix: Seq<Seq<char>>, bound: nat) -> bool {
    prefix.len() <= path.len() <= bound && path.take(prefix.len() as int) == prefix
}

/// The items of the registrations placed at `prefix` or below it, at most `bound` deep.
pub open spec fn items_within<H, E>(s: Seq<EntryView<H, E>>, prefix: Seq<Seq<char>>, bound: nat) -> Multiset<
    NodeView,
> {
    items_where(s, |p: Seq<Seq<char>>| within(p, prefix, bound))
}

/// The sum of the parts.
pub open spec fn multiset_sum(parts: Seq<Multiset<NodeView>>) -> Multiset<NodeView>
    decreases parts.len(),
{
    if parts.len() == 0 {
        Multiset::empty()
    } else {
        multiset_sum(parts.drop_last()).add(parts.last())
    }
}

proof fn lemma_empty_to_multiset()
    ensures
        Seq::<NodeView>::empty().to_multiset() =~= Multiset::empty(),
{
    broadcast use vstd::multiset::group_multiset_axioms;

    let e = Seq::<NodeView>::empty();
    vstd::seq_lib::lemma_multiset_commutative(e, e);
    assert(e + e =~= e);
}

proof fn lemma_items_where_split<H, E>(
    s: Seq<EntryView<H, E>>,
    p: spec_fn(Seq<Seq<char>>) -> bool,
    q: spec_fn(Seq<Seq<char>>) -> bool,
    r: spec_fn(Seq<Seq<char>>) -> bool,
)
    requires
        forall|x: Seq<Seq<char>>| #[trigger] p(x) == (q(x) || r(x)),
        forall|x: Seq<Seq<char>>| !(#[trigger] q(x) && r(x)),
    ensures
        items_where(s, p) =~= items_where(s, q).add(items_where(s, r)),
    decreases s.len(),
{
    broadcast use vstd::multiset::group_multiset_axioms;

    if s.len() > 0 {
        lemma_items_where_split(s.drop_last(), p, q, r);
    }
}

proof fn lemma_items_where_none<H, E>(s: Seq<EntryView<H, E>>, p: spec_fn(Seq<Seq<char>>) -> bool)
    requires
        forall|i: int| 0 <= i < s.len() ==> !p(#[trigger] s[i].2),
    ensures
        items_where(s, p) =~= Multiset::empty(),
    decreases s.len(),
{
    if s.len() > 0 {
        assert(s.last() == s[s.len() - 1]);
        assert forall|i: int| 0 <= i < s.drop_last().len() implies !p(#[trigger] s.drop_last()[i].2) by {
            assert(s.drop_last()[i] == s[i]);
        }
        lemma_items_where_none(s.drop_last(), p);
    }
}

proof fn lemma_multiset_sum_concat(a: Seq<Multiset<NodeView>>, b: Seq<Multiset<NodeView>>)
    ensures
        multiset_sum(a + b) =~= multiset_sum(a).add(multiset_sum(b)),
    decreases b.len(),
{
    broadcast use vstd::multiset::group_multiset_axioms;

    if b.len() == 0 {
        assert(a + b =~= a);
    } else {
        assert((a + b).drop_last() =~= a + b.drop_last());
        lemma_multiset_sum_concat(a, b.drop_last());
    }
}

proof fn lemma_multiset_sum_pointwise(
    n: nat,
    f: spec_fn(int) -> Multiset<NodeView>,
    g: spec_fn(int) -> Multiset<NodeView>,
)
    ensures
        multiset_sum(Seq::new(n, |k: int| f(k).add(g(k)))) =~= multiset_sum(Seq::new(n, f)).add(
            multiset_sum(Seq::new(n, g)),
        ),
    decreases n,
{
    broadcast use vstd::multiset::group_multiset_axioms;

    if n > 0 {
        let m = (n - 1) as nat;
        lemma_multiset_sum_pointwise(m, f, g);
        assert(Seq::new(n, |k: int| f(k).add(g(k))).drop_last() =~= Seq::new(m, |k: int| f(k).add(g(k))));
        assert(Seq::new(n, f).drop_last() =~= Seq::new(m, f));
        assert(Seq::new(n, g).drop_last() =~= Seq::new(m, g));
    }
}

proof fn lemma_multiset_sum_at_most_one(n: nat, f: spec_fn(int) -> Multiset<NodeView>, j: int, m: Multiset<NodeView>)
    requires
        forall|k: int| 0 <= k < n && k != j ==> #[trigger] f(k) =~= Multiset::empty(),
        0 <= j < n ==> f(j) == m,
    ensures
        multiset_sum(Seq::new(n, f)) =~= if 0 <= j < n {
            m
        } else {
            Multiset::empty()
        },
    decreases n,
{
    broadcast use vstd::multiset::group_multiset_axioms;

    if n > 0 {
        let l = (n - 1) as nat;
        assert(Seq::new(n, f).drop_last() =~= Seq::new(l, f));
        lemma_multiset_sum_at_most_one(l, f, j, m);
        assert(Seq::new(n, f).last() == f(l as int));
    }
}

proof fn lemma_flatten_to_multiset(parts: Seq<Seq<NodeView>>)
    ensures
        parts.flatten().to_multiset() =~= multiset_sum(
            Seq::new(parts.len(), |k: int| parts[k].to_multiset()),
        ),
    decreases parts.len(),
{
    broadcast use vstd::multiset::group_multiset_axioms;

    if parts.len() == 0 {
        lemma_empty_to_multiset();
    } else {
        let init = parts.drop_last();
        lemma_flatten_to_multiset(init);
        assert(init.push(parts.last()) =~= parts);
        init.lemma_flatten_push(parts.last());
        vstd::seq_lib::lemma_multiset_commutative(init.flatten(), parts.last());
        assert(Seq::new(parts.len(), |k: int| parts[k].to_multiset()).drop_last() =~= Seq::new(
            init.len(),
            |k: int| init[k].to_multiset(),
        ));
    }
}

proof fn lemma_flatten_singletons(a: Seq<NodeView>)
    ensures
        Seq::new(a.len(), |k: int| seq![a[k]]).flatten() =~= a,
    decreases a.len(),
{
    if a.len() > 0 {
        let init = a.drop_last();
        lemma_flatten_singletons(init);
        let parts = Seq::new(a.len(), |k: int| seq![a[k]]);
        assert(parts.drop_last() =~= Seq::new(init.len(), |k: int| seq![init[k]]));
        assert(parts.drop_last().push(parts.last()) =~= parts);
        parts.drop_last().lemma_flatten_push(parts.last());
        assert(init.push(a.last()) =~= a);
    }
}

proof fn lemma_items_at_facts<H, E>(s: Seq<EntryView<H, E>>, prefix: Seq<Seq<char>>)
    ensures
        forall|k: int| 0 <= k < items_at(s, prefix).len() ==> (#[trigger] items_at(s, prefix)[k]) is Item,
        items_at(s, prefix).to_multiset() =~= items_where(s, |p: Seq<Seq<char>>| p == prefix),
    decreases s.len(),
{
    broadcast use vstd::seq_lib::group_to_multiset_ensures;

    if s.len() == 0 {
        lemma_empty_to_multiset();
    } else {
        lemma_items_at_facts(s.drop_last(), prefix);
    }
}

proof fn lemma_within_push(path: Seq<Seq<char>>, prefix: Seq<Seq<char>>, label: Seq<char>, bound: nat)
    ensures
        within(path, prefix.push(label), bound) == (within(path, prefix, bound) && path.len() > prefix.len()
            && path[prefix.len() as int] == label),
{
    let n = prefix.len() as int;
    if path.len() > n && path.len() <= bound {
        if path.take(n + 1) == prefix.push(label) {
            assert(path.take(n) =~= path.take(n + 1).take(n));
            assert(prefix.push(label).take(n) =~= prefix);
            assert(path[n] == path.take(n + 1)[n]);
        }
        if path.take(n) == prefix && path[n] == label {
            assert(path.take(n + 1) =~= prefix.push(label));
        }
    }
}

proof fn lemma_partition<H, E>(s: Seq<EntryView<H, E>>, prefix: Seq<Seq<char>>, labels: Seq<Seq<char>>, bound: nat)
    requires
        distinct_names(labels),
        forall|i: int|
            0 <= i < s.len() && within(#[trigger] s[i].2, prefix, bound) && s[i].2.len() > prefix.len()
                ==> labels.contains(s[i].2[prefix.len() as int]),
    ensures
        multiset_sum(
            Seq::new(
                labels.len(),
                |k: int| items_within(s, prefix.push(labels[k]), bound),
            ),
        ) =~= items_where(
            s,
            |p: Seq<Seq<char>>| within(p, prefix, bound) && p.len() > prefix.len(),
        ),
    decreases s.len(),
{
    broadcast use vstd::multiset::group_multiset_axioms;

    let n = labels.len();
    let below_p = |p: Seq<Seq<char>>| within(p, prefix, bound) && p.len() > prefix.len();
    if s.len() == 0 {
        lemma_multiset_sum_at_most_one(
            n,
            |k: int| items_within(s, prefix.push(labels[k]), bound),
            -1,
            Multiset::empty(),
        );
    } else {
        let init = s.drop_last();
        let e = s.last();
        assert forall|i: int|
            0 <= i < init.len() && within(#[trigger] init[i].2, prefix, bound) && init[i].2.len() > prefix.len()
                implies labels.contains(init[i].2[prefix.len() as int]) by {
            assert(init[i] == s[i]);
        }
        lemma_partition(init, prefix, labels, bound);
        let f = |k: int| items_within(init, prefix.push(labels[k]), bound);
        let g = |k: int|
            if within(e.2, prefix.push(labels[k]), bound) {
                Multiset::singleton(entry_item(e))
            } else {
                Multiset::empty()
            };
        assert(Seq::new(n, |k: int| items_within(s, prefix.push(labels[k]), bound))
            =~= Seq::new(n, |k: int| f(k).add(g(k)))) by {
            assert forall|k: int| 0 <= k < n implies #[trigger] items_within(s, prefix.push(labels[k]), bound) =~= f(k).add(g(k)) by {
                lemma_within_push(e.2, prefix, labels[k], bound);
            }
        }
        lemma_multiset_sum_pointwise(n, f, g);
        if below_p(e.2) {
            assert(s[s.len() - 1] == e);
            let j = choose|j: int| 0 <= j < labels.len() && labels[j] == e.2[prefix.len() as int];
            assert forall|k: int| 0 <= k < n && k != j implies #[trigger] g(k) =~= Multiset::empty() by {
                lemma_within_push(e.2, prefix, labels[k], bound);
            }
            lemma_within_push(e.2, prefix, labels[j], bound);
            lemma_multiset_sum_at_most_one(n, g, j, Multiset::singleton(entry_item(e)));
        } else {
            assert forall|k: int| 0 <= k < n && k != -1 implies #[trigger] g(k) =~= Multiset::empty() by {
                lemma_within_push(e.2, prefix, labels[k], bound);
            }
            lemma_multiset_sum_at_most_one(n, g, -1, Multiset::empty());
        }
    }
}

proof fn lemma_within_splits(prefix: Seq<Seq<char>>, bound: nat)
    requires
        prefix.len() <= bound,
    ensures
        forall|x: Seq<Seq<char>>| #[trigger] within(x, prefix, bound) == (x == prefix || (within(x, prefix, bound)
            && x.len() > prefix.len())),
{
    assert(prefix.take(prefix.len() as int) =~= prefix);
    assert forall|x: Seq<Seq<char>>| #[trigger] within(x, prefix, bound) == (x == prefix || (within(
        x,
        prefix,
        bound,
    ) && x.len() > prefix.len())) by {
        if within(x, prefix, bound) && x.len() == prefix.len() {
            assert(x.take(prefix.len() as int) =~= x);
        }
    }
}

proof fn lemma_submenu_items<H, E>(s: Seq<EntryView<H, E>>, prefix: Seq<Seq<char>>, bound: nat)
    requires
        prefix.len() <= bound,
    ensures
        tree_items(expected_submenu(s, prefix, bound)).to_multiset() =~= items_within(s, prefix, bound),
    decreases bound - prefix.len(),
{
    broadcast use vstd::multiset::group_multiset_axioms;

    let labels = next_labels(s, prefix);
    let a = items_at(s, prefix);
    let nested: Seq<NodeView> = if prefix.len() < bound {
        Seq::new(labels.len(), |k: int| expected_submenu(s, prefix.push(labels[k]), bound))
    } else {
        Seq::empty()
    };
    let cs = a + nested;
    let unfolded = if prefix.len() < bound {
        Seq::new(
            next_labels(s, prefix).len(),
            |k: int| expected_submenu(s, prefix.push(next_labels(s, prefix)[k]), bound),
        )
    } else {
        Seq::empty()
    };
    assert(nested =~= unfolded);
    match expected_submenu(s, prefix, bound) {
        NodeView::Submenu(_, children) => {
            assert(children =~= cs);
        },
        NodeView::Item(..) => {},
    }
    assert(expected_submenu(s, prefix, bound) == NodeView::Submenu(prefix.last(), cs));
    lemma_tree_items_of_submenu(prefix.last(), cs);
    let x = Seq::new(a.len(), |k: int| tree_items(a[k]));
    let y = Seq::new(nested.len(), |k: int| tree_items(nested[k]));
    assert(Seq::new(cs.len(), |k: int| tree_items(cs[k])) =~= x + y);
    vstd::seq_lib::lemma_flatten_concat(x, y);
    lemma_items_at_facts(s, prefix);
    assert(x =~= Seq::new(a.len(), |k: int| seq![a[k]])) by {
        assert forall|k: int| 0 <= k < a.len() implies #[trigger] tree_items(a[k]) == seq![a[k]] by {
            assert(a[k] is Item);
        }
    }
    lemma_flatten_singletons(a);
    vstd::seq_lib::lemma_multiset_commutative(x.flatten(), y.flatten());
    lemma_flatten_to_multiset(y);
    let strictly = |p: Seq<Seq<char>>| within(p, prefix, bound) && p.len() > prefix.len();
    if prefix.len() < bound {
        lemma_next_labels_facts(s, prefix);
        assert forall|i: int|
            0 <= i < s.len() && within(#[trigger] s[i].2, prefix, bound) && s[i].2.len() > prefix.len()
                implies labels.contains(s[i].2[prefix.len() as int]) by {
            lemma_next_labels_contains(s, prefix, i);
        }
        lemma_partition(s, prefix, labels, bound);
        assert(Seq::new(y.len(), |k: int| y[k].to_multiset()) =~= Seq::new(
            labels.len(),
            |k: int| items_within(s, prefix.push(labels[k]), bound),
        )) by {
            assert forall|k: int| 0 <= k < labels.len() implies #[trigger] y[k].to_multiset()
                =~= items_within(s, prefix.push(labels[k]), bound) by {
                lemma_submenu_items(s, prefix.push(labels[k]), bound);
            }
        }
    } else {
        lemma_items_where_none(s, strictly);
        assert(Seq::new(y.len(), |k: int| y[k].to_multiset()) =~= Seq::<Multiset<NodeView>>::empty());
    }
    lemma_within_splits(prefix, bound);
    lemma_items_where_split(s, |p: Seq<Seq<char>>| within(p, prefix, bound), |p: Seq<Seq<char>>| p == prefix, strictly);
}

proof fn lemma_max_depth_bounds<H, E>(s: Seq<EntryView<H, E>>, i: int)
    requires
        0 <= i < s.len(),
    ensures
        s[i].2.len() <= max_depth(s),
    decreases s.len(),
{
    if i < s.len() - 1 {
        assert(s.drop_last()[i] == s[i]);
        lemma_max_depth_bounds(s.drop_last(), i);
    }
}

proof fn lemma_items_where_count<H, E>(s: Seq<EntryView<H, E>>, p: spec_fn(Seq<Seq<char>>) -> bool, i: int)
    requires
        0 <= i < s.len(),
        p(s[i].2),
        forall|j: int| 0 <= j < s.len() && j != i ==> (#[trigger] s[j]).1 != s[i].1,
    ensures
        items_where(s, p).count(entry_item(s[i])) == 1,
    decreases s.len(),
{
    broadcast use vstd::multiset::group_multiset_axioms;

    let init = s.drop_last();
    let x = entry_item(s[i]);
    if i == s.len() - 1 {
        assert forall|j: int| 0 <= j < init.len() implies #[trigger] entry_item(init[j]) != x by {
            assert(init[j] == s[j]);
        }
        lemma_items_where_absent(init, p, x);
    } else {
        assert(init[i] == s[i]);
        assert forall|j: int| 0 <= j < init.len() && j != i implies (#[trigger] init[j]).1 != init[i].1 by {
            assert(init[j] == s[j]);
        }
        lemma_items_where_count(init, p, i);
        assert(s[s.len() - 1] == s.last());
        assert(entry_item(s.last()) != x);
    }
}

proof fn lemma_items_where_absent<H, E>(s: Seq<EntryView<H, E>>, p: spec_fn(Seq<Seq<char>>) -> bool, x: NodeView)
    requires
        forall|j: int| 0 <= j < s.len() ==> #[trigger] entry_item(s[j]) != x,
    ensures
        items_where(s, p).count(x) == 0,
    decreases s.len(),
{
    broadcast use vstd::multiset::group_multiset_axioms;

    if s.len() > 0 {
        assert forall|j: int| 0 <= j < s.drop_last().len() implies #[trigger] entry_item(s.drop_last()[j]) != x by {
            assert(s.drop_last()[j] == s[j]);
        }
        lemma_items_where_absent(s.drop_last(), p, x);
        assert(entry_item(s[s.len() - 1]) != x);
    }
}

/// Every registered item is in the built menu exactly once: among the items of the whole
/// menu, depth first, the registration's item (registrant, identifier, label and chord)
/// occurs one time.
pub proof fn lemma_each_item_is_placed_once<H, E>(s: Seq<EntryView<H, E>>, placement: MenuPlacement, i: int)
    requires
        registry_wf(s),
        0 <= i < s.len(),
        s[i].2.len() > 0,
    ensures
        model_items(expected_model(s, placement)).to_multiset().count(entry_item(s[i])) == 1,
{
    broadcast use vstd::multiset::group_multiset_axioms;

    let empty = Seq::<Seq<char>>::empty();
    let names = top_order(next_labels(s, empty), placement);
    let d = model_depth(s);
    let m = expected_model(s, placement);
    lemma_top_level_order(s, placement);
    let parts = Seq::new(m.len(), |k: int| tree_items(m[k]));
    lemma_flatten_to_multiset(parts);
    assert(Seq::new(parts.len(), |k: int| parts[k].to_multiset()) =~= Seq::new(
        names.len(),
        |k: int| items_within(s, empty.push(names[k]), d),
    )) by {
        assert forall|k: int| 0 <= k < names.len() implies #[trigger] parts[k].to_multiset() =~= items_within(
            s,
            empty.push(names[k]),
            d,
        ) by {
            assert(seq![names[k]] =~= empty.push(names[k]));
            lemma_submenu_items(s, empty.push(names[k]), d);
        }
    }
    assert forall|j: int|
        0 <= j < s.len() && within(#[trigger] s[j].2, empty, d) && s[j].2.len() > empty.len()
            implies names.contains(s[j].2[empty.len() as int]) by {
        assert(s[j].2.len() > 0 && s[j].2[0] == s[j].2[0]);
    }
    lemma_partition(s, empty, names, d);
    lemma_max_depth_bounds(s, i);
    assert(s[i].2.take(0) =~= empty);
    lemma_items_where_count(s, |p: Seq<Seq<char>>| within(p, empty, d) && p.len() > empty.len(), i);
}

} // verus!

verus! {

/// In every submenu of the built menu, the items come first (those registered at that
/// position, in identity order) and the nested submenus after them.
pub proof fn lemma_items_precede_submenus<H, E>(s: Seq<EntryView<H, E>>, prefix: Seq<Seq<char>>, bound: nat)
    ensures
        expected_submenu(s, prefix, bound) matches NodeView::Submenu(_, children) && (forall|k: int|
            0 <= k < children.len() ==> ((#[trigger] children[k]) is Item <==> k < items_at(s, prefix).len())),
{
    lemma_items_at_facts(s, prefix);
    let a = items_at(s, prefix);
    let nested = if prefix.len() < bound {
        Seq::new(
            next_labels(s, prefix).len(),
            |k: int| expected_submenu(s, prefix.push(next_labels(s, prefix)[k]), bound),
        )
    } else {
        Seq::empty()
    };
    match expected_submenu(s, prefix, bound) {
        NodeView::Submenu(_, children) => {
            assert(children =~= a + nested);
            assert forall|k: int| 0 <= k < children.len() implies ((#[trigger] children[k]) is Item <==> k
                < a.len()) by {
                if k >= a.len() {
                    assert(children[k] == nested[k - a.len()]);
                }
            }
        },
        NodeView::Item(..) => {},
    }
}

} // verus!

verus! {

/// The conventional order of the top level, for either placement: ファイル before 編集,
/// 編集 before 表示, 表示 before ヘルプ, and ヘルプ before every other name (the application
/// menu of macOS aside, which comes first of all), each strictly.
pub proof fn lemma_known_submenus_come_in_order(placement: MenuPlacement, other: Seq<char>)
    requires
        other != "ファイル"@,
        other != "編集"@,
        other != "表示"@,
        other != "ヘルプ"@,
        !(placement == MenuPlacement::ApplicationWide && other == APPLICATION_MENU_LABEL@),
    ensures
        key_le(sort_key("ファイル"@, placement), sort_key("編集"@, placement)),
        !key_le(sort_key("編集"@, placement), sort_key("ファイル"@, placement)),
        key_le(sort_key("編集"@, placement), sort_key("表示"@, placement)),
        !key_le(sort_key("表示"@, placement), sort_key("編集"@, placement)),
        key_le(sort_key("表示"@, placement), sort_key("ヘルプ"@, placement)),
        !key_le(sort_key("ヘルプ"@, placement), sort_key("表示"@, placement)),
        key_le(sort_key("ヘルプ"@, placement), sort_key(other, placement)),
        !key_le(sort_key(other, placement), sort_key("ヘルプ"@, placement)),
        forall|a: Seq<char>, b: Seq<char>|
            a != "ファイル"@ && a != "編集"@ && a != "表示"@ && a != "ヘルプ"@ && b != "ファイル"@ && b != "編集"@
                && b != "表示"@ && b != "ヘルプ"@ && !(placement == MenuPlacement::ApplicationWide && (a
                == APPLICATION_MENU_LABEL@ || b == APPLICATION_MENU_LABEL@)) ==> (key_le(
                #[trigger] sort_key(a, placement),
                #[trigger] sort_key(b, placement),
            ) <==> text_le(a, b)),
        placement == MenuPlacement::ApplicationWide ==> key_le(
            sort_key(APPLICATION_MENU_LABEL@, placement),
            sort_key("ファイル"@, placement),
        ) && !key_le(sort_key("ファイル"@, placement), sort_key(APPLICATION_MENU_LABEL@, placement)),
{
    reveal_strlit("ファイル");
    reveal_strlit("編集");
    reveal_strlit("表示");
    reveal_strlit("ヘルプ");
    reveal_strlit("jxcel");
    assert("ファイル"@.len() == 4 && "編集"@.len() == 2 && "表示"@.len() == 2 && "ヘルプ"@.len() == 3);
    assert(APPLICATION_MENU_LABEL@ == "jxcel"@ && "jxcel"@.len() == 5);
    assert("編集"@[0] != "表示"@[0]);
    assert("ファイル"@ != "編集"@ && "ファイル"@ != "表示"@ && "ファイル"@ != "ヘルプ"@);
    assert("編集"@ != "表示"@ && "編集"@ != "ヘルプ"@ && "表示"@ != "ヘルプ"@);
    assert("ファイル"@ != APPLICATION_MENU_LABEL@ && "編集"@ != APPLICATION_MENU_LABEL@);
    assert("表示"@ != APPLICATION_MENU_LABEL@ && "ヘルプ"@ != APPLICATION_MENU_LABEL@);
    assert(sort_key("ファイル"@, placement).0 == 1 && sort_key("ファイル"@, placement).1 == 1);
    assert(sort_key("編集"@, placement).0 == 1 && sort_key("編集"@, placement).1 == 2);
    assert(sort_key("表示"@, placement).0 == 1 && sort_key("表示"@, placement).1 == 3);
    assert(sort_key("ヘルプ"@, placement).0 == 1 && sort_key("ヘルプ"@, placement).1 == 4);
    assert(sort_key(other, placement).0 == 1 && sort_key(other, placement).1 == 255);
}

} // verus!

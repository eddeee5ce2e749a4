use vstd::prelude::*;
use vstd::string::StringExecFns;
use crate::value::{dedup_entries, entries_view, get_entry, keys_within, Setting, SettingView};

verus! {

/// How the cursor is drawn.
#[derive(Clone, Copy, Debug, PartialEq, Eq, Structural)]
pub enum CursorKind {
    Block,
    Bar,
    Underline,
    Hidden,
}

/// The cursor's look in each mode.
#[derive(Clone, Copy, Debug, PartialEq, Eq, Structural)]
pub struct CursorShapeConfig {
    pub normal: CursorKind,
    pub select: CursorKind,
    pub insert: CursorKind,
}

/// The typed editor settings.
#[derive(Clone, Copy, Debug, PartialEq, Eq, Structural)]
pub struct EditorConfig {
    /// Lines of margin kept around the cursor (`scrolloff`).
    pub scrolloff: u64,
    /// Lines moved by one scroll step (`scroll-lines`).
    pub scroll_lines: i64,
    /// Whether the mouse is used (`mouse`).
    pub mouse: bool,
    /// Whether a middle click pastes (`middle-click-paste`).
    pub middle_click_paste: bool,
    /// Whether documents are formatted on save (`auto-format`).
    pub auto_format: bool,
    /// Whether 24-bit colour is assumed (`true-color`).
    pub true_color: bool,
    /// The cursor's look in each mode (`cursor-shape`).
    pub cursor_shape: CursorShapeConfig,
}

pub open spec fn default_shape() -> CursorShapeConfig {
    CursorShapeConfig { normal: CursorKind::Block, select: CursorKind::Block, insert: CursorKind::Block }
}

pub open spec fn default_editor() -> EditorConfig {
    EditorConfig {
        scrolloff: 5,
        scroll_lines: 3,
        mouse: true,
        middle_click_paste: true,
        auto_format: true,
        true_color: false,
        cursor_shape: default_shape(),
    }
}

impl Default for CursorShapeConfig {
    fn default() -> (r: CursorShapeConfig)
        ensures
            r == default_shape(),
    {
        CursorShapeConfig { normal: CursorKind::Block, select: CursorKind::Block, insert: CursorKind::Block }
    }
}

impl Default for EditorConfig {
    fn default() -> (r: EditorConfig)
        ensures
            r == default_editor(),
    {
        EditorConfig {
            scrolloff: 5,
            scroll_lines: 3,
            mouse: true,
            middle_click_paste: true,
            auto_format: true,
            true_color: false,
            cursor_shape: CursorShapeConfig::default(),
        }
    }
}

/// The keys that the editor table accepts.
pub open spec fn editor_keys() -> Set<Seq<char>> {
    set![
        "scrolloff"@,
        "scroll-lines"@,
        "mouse"@,
        "middle-click-paste"@,
        "auto-format"@,
        "true-color"@,
        "cursor-shape"@,
    ]
}

/// The keys that the cursor-shape table accepts.
pub open spec fn shape_keys() -> Set<Seq<char>> {
    set!["normal"@, "select"@, "insert"@]
}

pub open spec fn u64_field(t: Map<Seq<char>, SettingView>, k: Seq<char>, d: u64) -> Option<u64> {
    if !t.contains_key(k) {
        Some(d)
    } else {
        match t[k] {
            SettingView::Int(i) => if 0 <= i <= u64::MAX {
                Some(i as u64)
            } else {
                None
            },
            _ => None,
        }
    }
}

pub open spec fn i64_field(t: Map<Seq<char>, SettingView>, k: Seq<char>, d: i64) -> Option<i64> {
    if !t.contains_key(k) {
        Some(d)
    } else {
        match t[k] {
            SettingView::Int(i) => if i64::MIN <= i <= i64::MAX {
                Some(i as i64)
            } else {
                None
            },
            _ => None,
        }
    }
}

pub open spec fn bool_field(t: Map<Seq<char>, SettingView>, k: Seq<char>, d: bool) -> Option<bool> {
    if !t.contains_key(k) {
        Some(d)
    } else {
        match t[k] {
            SettingView::Bool(b) => Some(b),
            _ => None,
        }
    }
}

/// The cursor kind that a name stands for.
pub open spec fn kind_of(s: Seq<char>) -> Option<CursorKind> {
    if s == "block"@ {
        Some(CursorKind::Block)
    } else if s == "bar"@ {
        Some(CursorKind::Bar)
    } else if s == "underline"@ {
        Some(CursorKind::Underline)
    } else if s == "hidden"@ {
        Some(CursorKind::Hidden)
    } else {
        None
    }
}

pub open spec fn kind_field(t: Map<Seq<char>, SettingView>, k: Seq<char>) -> Option<CursorKind> {
    if !t.contains_key(k) {
        Some(CursorKind::Block)
    } else {
        match t[k] {
            SettingView::Str(s) => kind_of(s),
            _ => None,
        }
    }
}

/// The cursor shapes that a settings tree describes, if it fits the schema.
pub open spec fn shape_of(v: SettingView) -> Option<CursorShapeConfig> {
    match v {
        SettingView::Table(t) => {
            if t.dom().subset_of(shape_keys()) && kind_field(t, "normal"@) is Some && kind_field(
                t,
                "select"@,
            ) is Some && kind_field(t, "insert"@) is Some {
                Some(
                    CursorShapeConfig {
                        normal: kind_field(t, "normal"@)->Some_0,
                        select: kind_field(t, "select"@)->Some_0,
                        insert: kind_field(t, "insert"@)->Some_0,
                    },
                )
            } else {
                None
            }
        },
        _ => None,
    }
}

pub open spec fn shape_field(t: Map<Seq<char>, SettingView>) -> Option<CursorShapeConfig> {
    if !t.contains_key("cursor-shape"@) {
        Some(default_shape())
    } else {
        shape_of(t["cursor-shape"@])
    }
}

/// The typed settings that a settings tree describes, if it fits the schema: every key known,
/// every value of its field's type, absent fields at their defaults.
pub open spec fn editor_of(v: SettingView) -> Option<EditorConfig> {
    match v {
        SettingView::Table(t) => {
            let scrolloff = u64_field(t, "scrolloff"@, 5);
            let scroll_lines = i64_field(t, "scroll-lines"@, 3);
            let mouse = bool_field(t, "mouse"@, true);
            let paste = bool_field(t, "middle-click-paste"@, true);
            let format = bool_field(t, "auto-format"@, true);
            let color = bool_field(t, "true-color"@, false);
            let shape = shape_field(t);
            if t.dom().subset_of(editor_keys()) && scrolloff is Some && scroll_lines is Some
                && mouse is Some && paste is Some && format is Some && color is Some
                && shape is Some {
                Some(
                    EditorConfig {
                        scrolloff: scrolloff->Some_0,
                        scroll_lines: scroll_lines->Some_0,
                        mouse: mouse->Some_0,
                        middle_click_paste: paste->Some_0,
                        auto_format: format->Some_0,
                        true_color: color->Some_0,
                        cursor_shape: shape->Some_0,
                    },
                )
            } else {
                None
            }
        },
        _ => None,
    }
}

fn owned(s: &str) -> (r: String)
    ensures
        r@ == s@,
{
    s.to_owned()
}

fn u64_setting(entries: &Vec<(String, Setting)>, key: &str, d: u64) -> (r: Option<u64>)
    requires
        crate::value::unique_keys(entries@),
    ensures
        r == u64_field(entries_view(entries@), key@, d),
{
    match get_entry(entries, key) {
        None => Some(d),
        Some(Setting::Int(i)) => if *i >= 0 {
            Some(*i as u64)
        } else {
            None
        },
        Some(_) => None,
    }
}

fn i64_setting(entries: &Vec<(String, Setting)>, key: &str, d: i64) -> (r: Option<i64>)
    requires
        crate::value::unique_keys(entries@),
    ensures
        r == i64_field(entries_view(entries@), key@, d),
{
    match get_entry(entries, key) {
        None => Some(d),
        Some(Setting::Int(i)) => Some(*i),
        Some(_) => None,
    }
}

fn bool_setting(entries: &Vec<(String, Setting)>, key: &str, d: bool) -> (r: Option<bool>)
    requires
        crate::value::unique_keys(entries@),
    ensures
        r == bool_field(entries_view(entries@), key@, d),
{
    match get_entry(entries, key) {
        None => Some(d),
        Some(Setting::Bool(b)) => Some(*b),
        Some(_) => None,
    }
}

fn kind_setting(entries: &Vec<(String, Setting)>, key: &str) -> (r: Option<CursorKind>)
    requires
        crate::value::unique_keys(entries@),
    ensures
        r == kind_field(entries_view(entries@), key@),
{
    match get_entry(entries, key) {
        None => Some(CursorKind::Block),
        Some(Setting::Str(s)) => {
            if *s == owned("block") {
                Some(CursorKind::Block)
            } else if *s == owned("bar") {
                Some(CursorKind::Bar)
            } else if *s == owned("underline") {
                Some(CursorKind::Underline)
            } else if *s == owned("hidden") {
                Some(CursorKind::Hidden)
            } else {
                None
            }
        },
        Some(_) => None,
    }
}

fn shape_setting(v: Setting) -> (r: Option<CursorShapeConfig>)
    ensures
        r == shape_of(v@),
{
    match v {
        Setting::Table(raw) => {
            let entries = dedup_entries(raw);
            let mut allowed: Vec<String> = Vec::new();
            allowed.push(owned("normal"));
            allowed.push(owned("select"));
            allowed.push(owned("insert"));
            proof {
                assert(Set::new(
                    |k: Seq<char>| exists|j: int| 0 <= j < allowed@.len() && #[trigger] allowed@[j]@ == k,
                ) =~= shape_keys()) by {
                    assert(allowed@[0]@ == "normal"@);
                    assert(allowed@[1]@ == "select"@);
                    assert(allowed@[2]@ == "insert"@);
                }
            }
            let unknown = keys_within(&entries, &allowed);
            let normal = kind_setting(&entries, "normal");
            let select = kind_setting(&entries, "select");
            let insert = kind_setting(&entries, "insert");
            match (unknown, normal, select, insert) {
                (None, Some(normal), Some(select), Some(insert)) => Some(
                    CursorShapeConfig { normal, select, insert },
                ),
                _ => None,
            }
        },
        _ => None,
    }
}

/// Reads the typed editor settings out of a settings tree.
pub fn editor_from(v: Setting) -> (r: Result<EditorConfig, String>)
    ensures
        r matches Ok(c) ==> editor_of(v@) == Some(c),
        r is Err ==> editor_of(v@) is None,
{
    match v {
        Setting::Table(raw) => {
            let entries = dedup_entries(raw);
            let mut allowed: Vec<String> = Vec::new();
            allowed.push(owned("scrolloff"));
            allowed.push(owned("scroll-lines"));
            allowed.push(owned("mouse"));
            allowed.push(owned("middle-click-paste"));
            allowed.push(owned("auto-format"));
            allowed.push(owned("true-color"));
            allowed.push(owned("cursor-shape"));
            proof {
                assert(Set::new(
                    |k: Seq<char>| exists|j: int| 0 <= j < allowed@.len() && #[trigger] allowed@[j]@ == k,
                ) =~= editor_keys()) by {
                    assert(allowed@[0]@ == "scrolloff"@);
                    assert(allowed@[1]@ == "scroll-lines"@);
                    assert(allowed@[2]@ == "mouse"@);
                    assert(allowed@[3]@ == "middle-click-paste"@);
                    assert(allowed@[4]@ == "auto-format"@);
                    assert(allowed@[5]@ == "true-color"@);
                    assert(allowed@[6]@ == "cursor-shape"@);
                }
            }
            if let Some(key) = keys_within(&entries, &allowed) {
                return Err(owned("unknown field in editor settings: ").concat(key.as_str()));
            }
            let scrolloff = u64_setting(&entries, "scrolloff", 5);
            let scroll_lines = i64_setting(&entries, "scroll-lines", 3);
            let mouse = bool_setting(&entries, "mouse", true);
            let paste = bool_setting(&entries, "middle-click-paste", true);
            let format = bool_setting(&entries, "auto-format", true);
            let color = bool_setting(&entries, "true-color", false);
            let shape = match get_entry(&entries, "cursor-shape") {
                None => Some(CursorShapeConfig::default()),
                Some(s) => shape_setting(s.copy()),
            };
            match (scrolloff, scroll_lines, mouse, paste, format, color, shape) {
                (
                    Some(scrolloff),
                    Some(scroll_lines),
                    Some(mouse),
                    Some(middle_click_paste),
                    Some(auto_format),
                    Some(true_color),
                    Some(cursor_shape),
                ) => Ok(
                    EditorConfig {
                        scrolloff,
                        scroll_lines,
                        mouse,
                        middle_click_paste,
                        auto_format,
                        true_color,
                        cursor_shape,
                    },
                ),
                _ => Err(owned("invalid value in editor settings")),
            }
        },
        _ => Err(owned("editor settings must be a table")),
    }
}

} // verus!

use vstd::prelude::*;
use crate::keymap::{empty_keymap, KeyTrie, Keymap, Mode};
use crate::value::{dedup_entries, entries_view, get_entry, items_view, keys_within, Setting, SettingView};

verus! {

/// The commands of a key table, where every value names a command.
pub open spec fn commands_of(t: Map<Seq<char>, SettingView>) -> Map<Seq<char>, Seq<char>> {
    Map::new(|k: Seq<char>| t.contains_key(k), |k: Seq<char>| t[k]->Str_0)
}

pub open spec fn all_commands(t: Map<Seq<char>, SettingView>) -> bool {
    forall|k: Seq<char>| #[trigger] t.contains_key(k) ==> t[k] is Str
}

/// The key table of one mode, if it fits the schema (absent: no bindings).
pub open spec fn mode_table_of(t: Map<Seq<char>, SettingView>, name: Seq<char>) -> Option<
    Map<Seq<char>, Seq<char>>,
> {
    if !t.contains_key(name) {
        Some(Map::empty())
    } else {
        match t[name] {
            SettingView::Table(m) => if all_commands(m) {
                Some(commands_of(m))
            } else {
                None
            },
            _ => None,
        }
    }
}

pub open spec fn mode_keys() -> Set<Seq<char>> {
    set!["normal"@, "select"@, "insert"@]
}

/// The key overrides that a `keys` table describes, if it fits the schema.
pub open spec fn keymap_of(v: SettingView) -> Option<Map<Mode, Map<Seq<char>, Seq<char>>>> {
    match v {
        SettingView::Table(t) => {
            let n = mode_table_of(t, "normal"@);
            let s = mode_table_of(t, "select"@);
            let i = mode_table_of(t, "insert"@);
            if t.dom().subset_of(mode_keys()) && n is Some && s is Some && i is Some {
                Some(
                    Map::new(
                        |m: Mode| true,
                        |m: Mode|
                            match m {
                                Mode::Normal => n->Some_0,
                                Mode::Select => s->Some_0,
                                Mode::Insert => i->Some_0,
                            },
                    ),
                )
            } else {
                None
            }
        },
        _ => None,
    }
}

fn owned(s: &str) -> (r: String)
    ensures
        r@ == s@,
{
    s.to_owned()
}

fn mode_trie(entries: &Vec<(String, Setting)>, name: &str) -> (r: Option<KeyTrie>)
    requires
        crate::value::unique_keys(entries@),
    ensures
        r matches Some(k) ==> mode_table_of(entries_view(entries@), name@) == Some(k@),
        r is None ==> mode_table_of(entries_view(entries@), name@) is None,
{
    match get_entry(entries, name) {
        None => Some(KeyTrie::new()),
        Some(Setting::Table(raw)) => {
            let bindings = dedup_entries(crate::value::copy_entries(raw));
            let ghost t = entries_view(bindings@);
            proof {
                assert(entries_view(entries@)[name@] == SettingView::Table(t));
            }
            let mut trie = KeyTrie::new();
            let mut i: usize = 0;
            while i < bindings.len()
                invariant
                    i <= bindings@.len(),
                    crate::value::unique_keys(bindings@),
                    t == entries_view(bindings@),
                    entries_view(entries@).contains_key(name@),
                    entries_view(entries@)[name@] == SettingView::Table(t),
                    all_commands(entries_view(bindings@.subrange(0, i as int))),
                    trie@ == commands_of(entries_view(bindings@.subrange(0, i as int))),
                decreases bindings@.len() - i,
            {
                let ghost pre = entries_view(bindings@.subrange(0, i as int));
                proof {
                    assert(bindings@.subrange(0, i + 1).drop_last() =~= bindings@.subrange(0, i as int));
                }
                match &bindings[i].1 {
                    Setting::Str(command) => {
                        trie.bind(bindings[i].0.as_str(), command.as_str());
                        proof {
                            let post = entries_view(bindings@.subrange(0, i + 1));
                            assert(crate::value::setting_view(bindings@[i as int].1) == SettingView::Str(command@));
                            assert(post == pre.insert(bindings@[i as int].0@, SettingView::Str(command@)));
                            assert(trie@ =~= commands_of(post));
                        }
                    },
                    _ => {
                        proof {
                            crate::value::lemma_entries_at(bindings@, i as int);
                            assert(!(t[bindings@[i as int].0@] is Str));
                            assert(t.contains_key(bindings@[i as int].0@));
                            assert(!all_commands(t));
                        }
                        return None;
                    },
                }
                i = i + 1;
            }
            proof {
                assert(bindings@.subrange(0, i as int) =~= bindings@);
            }
            Some(trie)
        },
        Some(_) => None,
    }
}

/// Reads the key overrides out of a `keys` table.
pub fn keymap_from(v: &Setting) -> (r: Option<Keymap>)
    ensures
        r matches Some(k) ==> keymap_of(v@) == Some(k@),
        r is None ==> keymap_of(v@) is None,
{
    match v {
        Setting::Table(raw) => {
            let entries = dedup_entries(crate::value::copy_entries(raw));
            let mut allowed: Vec<String> = Vec::new();
            allowed.push(owned("normal"));
            allowed.push(owned("select"));
            allowed.push(owned("insert"));
            proof {
                assert(Set::new(
                    |k: Seq<char>| exists|j: int| 0 <= j < allowed@.len() && #[trigger] allowed@[j]@ == k,
                ) =~= mode_keys()) by {
                    assert(allowed@[0]@ == "normal"@);
                    assert(allowed@[1]@ == "select"@);
                    assert(allowed@[2]@ == "insert"@);
                }
            }
            let unknown = keys_within(&entries, &allowed);
            let normal = mode_trie(&entries, "normal");
            let select = mode_trie(&entries, "select");
            let insert = mode_trie(&entries, "insert");
            match (unknown, normal, select, insert) {
                (None, Some(normal), Some(select), Some(insert)) => {
                    let k = Keymap { normal, select, insert };
                    proof {
                        assert(keymap_of(v@)->Some_0 =~= k@);
                    }
                    Some(k)
                },
                _ => None,
            }
        },
        _ => None,
    }
}

/// What a language block holds.
pub struct LanguageView {
    pub name: Seq<char>,
    pub theme: Option<Seq<char>>,
    pub keys: Option<Map<Mode, Map<Seq<char>, Seq<char>>>>,
    pub editor: Option<SettingView>,
}

/// What a configuration document holds.
pub struct RawView {
    pub theme: Option<Seq<char>>,
    pub keys: Option<Map<Mode, Map<Seq<char>, Seq<char>>>>,
    pub editor: Option<SettingView>,
    pub languages: Option<Seq<LanguageView>>,
}

pub open spec fn str_view(o: Option<String>) -> Option<Seq<char>> {
    match o {
        Some(s) => Some(s@),
        None => None,
    }
}

pub open spec fn keymap_view(o: Option<Keymap>) -> Option<Map<Mode, Map<Seq<char>, Seq<char>>>> {
    match o {
        Some(k) => Some(k@),
        None => None,
    }
}

pub open spec fn setting_opt_view(o: Option<Setting>) -> Option<SettingView> {
    match o {
        Some(v) => Some(v@),
        None => None,
    }
}

/// A language block of a configuration document.
pub struct LanguageConfigRaw {
    pub name: String,
    pub theme: Option<String>,
    pub keys: Option<Keymap>,
    pub editor: Option<Setting>,
}

impl View for LanguageConfigRaw {
    type V = LanguageView;

    open spec fn view(&self) -> LanguageView {
        LanguageView {
            name: self.name@,
            theme: str_view(self.theme),
            keys: keymap_view(self.keys),
            editor: setting_opt_view(self.editor),
        }
    }
}

/// A configuration document, checked against the schema but not yet resolved.
pub struct ConfigRaw {
    pub theme: Option<String>,
    pub keys: Option<Keymap>,
    pub editor: Option<Setting>,
    pub languages: Option<Vec<LanguageConfigRaw>>,
}

impl View for ConfigRaw {
    type V = RawView;

    open spec fn view(&self) -> RawView {
        RawView {
            theme: str_view(self.theme),
            keys: keymap_view(self.keys),
            editor: setting_opt_view(self.editor),
            languages: match self.languages {
                Some(l) => Some(l@.map_values(|x: LanguageConfigRaw| x@)),
                None => None,
            },
        }
    }
}

/// An optional string field: absent, or a string.
pub open spec fn str_field(t: Map<Seq<char>, SettingView>, k: Seq<char>) -> Option<Option<Seq<char>>> {
    if !t.contains_key(k) {
        Some(None)
    } else {
        match t[k] {
            SettingView::Str(s) => Some(Some(s)),
            _ => None,
        }
    }
}

/// An optional key-override field: absent, or a key table that fits the schema.
pub open spec fn keys_field(t: Map<Seq<char>, SettingView>) -> Option<
    Option<Map<Mode, Map<Seq<char>, Seq<char>>>>,
> {
    if !t.contains_key("keys"@) {
        Some(None)
    } else {
        match keymap_of(t["keys"@]) {
            Some(k) => Some(Some(k)),
            None => None,
        }
    }
}

/// An optional settings field: absent, or any tree.
pub open spec fn editor_field(t: Map<Seq<char>, SettingView>) -> Option<SettingView> {
    if t.contains_key("editor"@) {
        Some(t["editor"@])
    } else {
        None
    }
}

pub open spec fn language_keys() -> Set<Seq<char>> {
    set!["name"@, "theme"@, "keys"@, "editor"@]
}

pub open spec fn document_keys() -> Set<Seq<char>> {
    set!["theme"@, "keys"@, "editor"@, "languages"@]
}

/// The language block that a tree describes, if it fits the schema.
pub open spec fn language_of(v: SettingView) -> Option<LanguageView> {
    match v {
        SettingView::Table(t) => {
            let theme = str_field(t, "theme"@);
            let keys = keys_field(t);
            if t.dom().subset_of(language_keys()) && t.contains_key("name"@) && t["name"@] is Str
                && theme is Some && keys is Some {
                Some(
                    LanguageView {
                        name: t["name"@]->Str_0,
                        theme: theme->Some_0,
                        keys: keys->Some_0,
                        editor: editor_field(t),
                    },
                )
            } else {
                None
            }
        },
        _ => None,
    }
}

pub open spec fn languages_of(s: Seq<SettingView>) -> Option<Seq<LanguageView>> {
    if forall|i: int| 0 <= i < s.len() ==> #[trigger] language_of(s[i]) is Some {
        Some(s.map_values(|x: SettingView| language_of(x)->Some_0))
    } else {
        None
    }
}

pub open spec fn languages_field(t: Map<Seq<char>, SettingView>) -> Option<Option<Seq<LanguageView>>> {
    if !t.contains_key("languages"@) {
        Some(None)
    } else {
        match t["languages"@] {
            SettingView::Array(items) => match languages_of(items) {
                Some(l) => Some(Some(l)),
                None => None,
            },
            _ => None,
        }
    }
}

/// The document that a parsed tree describes, if it fits the schema: every key known at every
/// level, every value of its field's type.
pub open spec fn raw_of(v: SettingView) -> Option<RawView> {
    match v {
        SettingView::Table(t) => {
            let theme = str_field(t, "theme"@);
            let keys = keys_field(t);
            let languages = languages_field(t);
            if t.dom().subset_of(document_keys()) && theme is Some && keys is Some && languages is Some {
                Some(
                    RawView {
                        theme: theme->Some_0,
                        keys: keys->Some_0,
                        editor: editor_field(t),
                        languages: languages->Some_0,
                    },
                )
            } else {
                None
            }
        },
        _ => None,
    }
}

fn str_entry(entries: &Vec<(String, Setting)>, key: &str) -> (r: Option<Option<String>>)
    requires
        crate::value::unique_keys(entries@),
    ensures
        r matches Some(o) ==> str_field(entries_view(entries@), key@) == Some(str_view(o)),
        r is None ==> str_field(entries_view(entries@), key@) is None,
{
    match get_entry(entries, key) {
        None => Some(None),
        Some(Setting::Str(s)) => Some(Some(s.clone())),
        Some(_) => None,
    }
}

fn keys_entry(entries: &Vec<(String, Setting)>) -> (r: Option<Option<Keymap>>)
    requires
        crate::value::unique_keys(entries@),
    ensures
        r matches Some(o) ==> keys_field(entries_view(entries@)) == Some(keymap_view(o)),
        r is None ==> keys_field(entries_view(entries@)) is None,
{
    match get_entry(entries, "keys") {
        None => Some(None),
        Some(v) => match keymap_from(v) {
            Some(k) => Some(Some(k)),
            None => None,
        },
    }
}

fn editor_entry(entries: &Vec<(String, Setting)>) -> (r: Option<Setting>)
    requires
        crate::value::unique_keys(entries@),
    ensures
        setting_opt_view(r) == editor_field(entries_view(entries@)),
{
    match get_entry(entries, "editor") {
        None => None,
        Some(v) => Some(v.copy()),
    }
}

/// Reads a language block out of a tree.
fn language_from(v: &Setting) -> (r: Option<LanguageConfigRaw>)
    ensures
        r matches Some(l) ==> language_of(v@) == Some(l@),
        r is None ==> language_of(v@) is None,
{
    match v {
        Setting::Table(raw) => {
            let entries = dedup_entries(crate::value::copy_entries(raw));
            let mut allowed: Vec<String> = Vec::new();
            allowed.push(owned("name"));
            allowed.push(owned("theme"));
            allowed.push(owned("keys"));
            allowed.push(owned("editor"));
            proof {
                assert(Set::new(
                    |k: Seq<char>| exists|j: int| 0 <= j < allowed@.len() && #[trigger] allowed@[j]@ == k,
                ) =~= language_keys()) by {
                    assert(allowed@[0]@ == "name"@);
                    assert(allowed@[1]@ == "theme"@);
                    assert(allowed@[2]@ == "keys"@);
                    assert(allowed@[3]@ == "editor"@);
                }
            }
            let unknown = keys_within(&entries, &allowed);
            let name = match get_entry(&entries, "name") {
                Some(Setting::Str(n)) => Some(n.clone()),
                _ => None,
            };
            let theme = str_entry(&entries, "theme");
            let keys = keys_entry(&entries);
            let editor = editor_entry(&entries);
            match (unknown, name, theme, keys) {
                (None, Some(name), Some(theme), Some(keys)) => Some(
                    LanguageConfigRaw { name, theme, keys, editor },
                ),
                _ => None,
            }
        },
        _ => None,
    }
}

/// Reads a configuration document out of a parsed tree, refusing what does not fit the schema.
pub fn raw_from(v: &Setting) -> (r: Result<ConfigRaw, String>)
    ensures
        r matches Ok(c) ==> raw_of(v@) == Some(c@),
        r is Err ==> raw_of(v@) is None,
{
    match v {
        Setting::Table(raw) => {
            let entries = dedup_entries(crate::value::copy_entries(raw));
            let mut allowed: Vec<String> = Vec::new();
            allowed.push(owned("theme"));
            allowed.push(owned("keys"));
            allowed.push(owned("editor"));
            allowed.push(owned("languages"));
            proof {
                assert(Set::new(
                    |k: Seq<char>| exists|j: int| 0 <= j < allowed@.len() && #[trigger] allowed@[j]@ == k,
                ) =~= document_keys()) by {
                    assert(allowed@[0]@ == "theme"@);
                    assert(allowed@[1]@ == "keys"@);
                    assert(allowed@[2]@ == "editor"@);
                    assert(allowed@[3]@ == "languages"@);
                }
            }
            if let Some(key) = keys_within(&entries, &allowed) {
                return Err(owned("unknown field `").concat(key.as_str()).concat("`"));
            }
            let theme = match str_entry(&entries, "theme") {
                Some(t) => t,
                None => return Err(owned("invalid type for `theme`: expected a string")),
            };
            let keys = match keys_entry(&entries) {
                Some(k) => k,
                None => return Err(owned("invalid `keys`: expected a table of modes binding keys to commands")),
            };
            let editor = editor_entry(&entries);
            let languages = match get_entry(&entries, "languages") {
                None => None,
                Some(Setting::Array(items)) => {
                    let ghost t = entries_view(entries@);
                    proof {
                        assert(t["languages"@] == SettingView::Array(items_view(items@)));
                    }
                    let mut out: Vec<LanguageConfigRaw> = Vec::new();
                    let mut i: usize = 0;
                    while i < items.len()
                        invariant
                            i <= items@.len(),
                            out@.len() == i,
                            t == entries_view(entries@),
                            v@ == SettingView::Table(t),
                            t.contains_key("languages"@),
                            t["languages"@] == SettingView::Array(items_view(items@)),
                            forall|m: int|
                                0 <= m < i ==> #[trigger] language_of(items_view(items@)[m]) == Some(
                                    out@[m]@,
                                ),
                        decreases items@.len() - i,
                    {
                        proof {
                            crate::value::lemma_items_view_at(items@, i as int);
                        }
                        match language_from(&items[i]) {
                            Some(l) => out.push(l),
                            None => {
                                proof {
                                    assert(language_of(items_view(items@)[i as int]) is None);
                                    assert(languages_of(items_view(items@)) is None);
                                }
                                return Err(owned("invalid language block"));
                            },
                        }
                        i = i + 1;
                    }
                    proof {
                        crate::value::lemma_items_view_len(items@);
                        let lv = items_view(items@);
                        assert(languages_of(lv) is Some);
                        assert(languages_of(lv)->Some_0 =~= out@.map_values(|x: LanguageConfigRaw| x@));
                    }
                    Some(out)
                },
                Some(_) => return Err(owned("invalid type for `languages`: expected an array")),
            };
            let r = ConfigRaw { theme, keys, editor, languages };
            proof {
                assert(raw_of(v@) is Some);
            }
            Ok(r)
        },
        _ => Err(owned("a configuration document must be a table")),
    }
}

} // verus!

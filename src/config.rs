use vstd::prelude::*;
use vstd::string::StringExecFns;
use crate::editor::{default_editor, editor_from, editor_of, EditorConfig};
use crate::keymap::{default_keymap, default_keys, layer_keymap, merge_keys, Keymap, Mode};
use crate::raw::{raw_from, raw_of, ConfigRaw, LanguageConfigRaw, LanguageView, RawView};
use crate::value::{merge_toml_values, merged, Setting, SettingView};

verus! {

/// The key maps of every mode, as a map.
pub type KeymapView = Map<Mode, Map<Seq<char>, Seq<char>>>;

/// The language blocks of a document by name; of two blocks with one name the later wins.
pub open spec fn lang_map(s: Seq<LanguageView>) -> Map<Seq<char>, LanguageView>
    decreases s.len(),
{
    if s.len() == 0 {
        Map::empty()
    } else {
        lang_map(s.drop_last()).insert(s.last().name, s.last())
    }
}

pub open spec fn langs_of(o: Option<Seq<LanguageView>>) -> Map<Seq<char>, LanguageView> {
    match o {
        Some(s) => lang_map(s),
        None => Map::empty(),
    }
}

pub open spec fn lang_views(s: Seq<LanguageConfigRaw>) -> Seq<LanguageView> {
    s.map_values(|x: LanguageConfigRaw| x@)
}

proof fn lemma_lang_suffix(s: Seq<LanguageView>, i: int, k: Seq<char>)
    requires
        0 <= i <= s.len(),
        forall|m: int| i <= m < s.len() ==> #[trigger] s[m].name != k,
    ensures
        lang_map(s).contains_key(k) == lang_map(s.subrange(0, i)).contains_key(k),
        lang_map(s)[k] == lang_map(s.subrange(0, i))[k],
    decreases s.len(),
{
    if s.len() == i {
        assert(s.subrange(0, i) =~= s);
    } else {
        lemma_lang_suffix(s.drop_last(), i, k);
        assert(s.drop_last().subrange(0, i) =~= s.subrange(0, i));
    }
}

proof fn lemma_lang_dom(s: Seq<LanguageView>, k: Seq<char>)
    ensures
        lang_map(s).contains_key(k) <==> exists|i: int| 0 <= i < s.len() && #[trigger] s[i].name == k,
    decreases s.len(),
{
    if s.len() > 0 {
        lemma_lang_dom(s.drop_last(), k);
        if lang_map(s.drop_last()).contains_key(k) {
            let i = choose|i: int| 0 <= i < s.drop_last().len() && #[trigger] s.drop_last()[i].name == k;
            assert(s[i].name == k);
        }
        if exists|i: int| 0 <= i < s.len() && #[trigger] s[i].name == k {
            let i = choose|i: int| 0 <= i < s.len() && #[trigger] s[i].name == k;
            if i < s.len() - 1 {
                assert(s.drop_last()[i].name == k);
            }
        }
    }
}

/// The block that a language's name picks out of a list: its last one.
fn find_language<'a>(langs: &'a Vec<LanguageConfigRaw>, name: &String) -> (r: Option<
    &'a LanguageConfigRaw,
>)
    ensures
        r matches Some(l) ==> lang_map(lang_views(langs@)).get(name@) == Some(l@),
        r is None ==> lang_map(lang_views(langs@)).get(name@) is None,
{
    let ghost vs = lang_views(langs@);
    let mut i: usize = langs.len();
    while i > 0
        invariant
            i <= langs@.len(),
            vs == lang_views(langs@),
            forall|m: int| i <= m < vs.len() ==> #[trigger] vs[m].name != name@,
        decreases i,
    {
        if langs[i - 1].name == *name {
            proof {
                assert(vs[i - 1].name == name@);
                lemma_lang_suffix(vs, i as int, name@);
                assert(vs.subrange(0, i as int).drop_last() =~= vs.subrange(0, i - 1));
            }
            return Some(&langs[i - 1]);
        }
        proof {
            assert(vs[i - 1].name != name@);
        }
        i = i - 1;
    }
    proof {
        lemma_lang_suffix(vs, 0, name@);
        assert(vs.subrange(0, 0) =~= Seq::<LanguageView>::empty());
    }
    None
}

/// Layers `o` onto `base`, where it is given.
pub open spec fn layer_opt(base: KeymapView, o: Option<KeymapView>) -> KeymapView {
    match o {
        Some(k) => layer_keymap(base, k),
        None => base,
    }
}

/// Deep merge of two optional settings trees, to the fixed depth of three levels.
pub open spec fn merge_opt(a: Option<SettingView>, b: Option<SettingView>) -> Option<SettingView> {
    match (a, b) {
        (None, None) => None,
        (None, Some(v)) => Some(v),
        (Some(v), None) => Some(v),
        (Some(x), Some(y)) => Some(merged(x, y, 3)),
    }
}

/// The typed settings of an optional tree: the defaults where there is none.
pub open spec fn materialized(v: Option<SettingView>) -> Option<EditorConfig> {
    match v {
        None => Some(default_editor()),
        Some(t) => editor_of(t),
    }
}

pub open spec fn side_theme(o: Option<LanguageView>) -> Option<Seq<char>> {
    match o {
        Some(l) => l.theme,
        None => None,
    }
}

pub open spec fn side_keys(o: Option<LanguageView>) -> Option<KeymapView> {
    match o {
        Some(l) => l.keys,
        None => None,
    }
}

pub open spec fn side_editor(o: Option<LanguageView>) -> Option<SettingView> {
    match o {
        Some(l) => l.editor,
        None => None,
    }
}

/// A language's theme: the local block's, else the global block's.
pub open spec fn lang_theme(g: Option<LanguageView>, l: Option<LanguageView>) -> Option<Seq<char>> {
    match side_theme(l) {
        Some(t) => Some(t),
        None => side_theme(g),
    }
}

/// A language's key map, where either block gives keys: the global block's keys, then the
/// local block's, layered onto the resolved base key map.
pub open spec fn lang_keys(base: KeymapView, g: Option<LanguageView>, l: Option<LanguageView>) -> Option<
    KeymapView,
> {
    if side_keys(g) is Some || side_keys(l) is Some {
        Some(layer_opt(layer_opt(base, side_keys(g)), side_keys(l)))
    } else {
        None
    }
}

/// A language's settings tree, where either block gives settings: the two blocks' merged,
/// then merged onto the base tree.
pub open spec fn lang_editor_raw(
    base: Option<SettingView>,
    g: Option<LanguageView>,
    l: Option<LanguageView>,
) -> Option<SettingView> {
    if side_editor(g) is Some || side_editor(l) is Some {
        merge_opt(base, merge_opt(side_editor(g), side_editor(l)))
    } else {
        None
    }
}

pub open spec fn theme_table(s: Seq<(String, String)>) -> Map<Seq<char>, Seq<char>>
    decreases s.len(),
{
    if s.len() == 0 {
        Map::empty()
    } else {
        theme_table(s.drop_last()).insert(s.last().0@, s.last().1@)
    }
}

pub open spec fn keys_table(s: Seq<(String, Keymap)>) -> Map<Seq<char>, KeymapView>
    decreases s.len(),
{
    if s.len() == 0 {
        Map::empty()
    } else {
        keys_table(s.drop_last()).insert(s.last().0@, s.last().1@)
    }
}

pub open spec fn editor_table(s: Seq<(String, EditorConfig)>) -> Map<Seq<char>, EditorConfig>
    decreases s.len(),
{
    if s.len() == 0 {
        Map::empty()
    } else {
        editor_table(s.drop_last()).insert(s.last().0@, s.last().1)
    }
}

/// The per-language themes.
pub open spec fn theme_lang_of(
    gm: Map<Seq<char>, LanguageView>,
    lm: Map<Seq<char>, LanguageView>,
) -> Map<Seq<char>, Seq<char>> {
    Map::new(
        |k: Seq<char>| (gm.contains_key(k) || lm.contains_key(k)) && lang_theme(gm.get(k), lm.get(k)) is Some,
        |k: Seq<char>| lang_theme(gm.get(k), lm.get(k))->Some_0,
    )
}

/// The per-language key maps.
pub open spec fn keys_lang_of(
    gm: Map<Seq<char>, LanguageView>,
    lm: Map<Seq<char>, LanguageView>,
    base: KeymapView,
) -> Map<Seq<char>, KeymapView> {
    Map::new(
        |k: Seq<char>| (gm.contains_key(k) || lm.contains_key(k)) && lang_keys(base, gm.get(k), lm.get(k)) is Some,
        |k: Seq<char>| lang_keys(base, gm.get(k), lm.get(k))->Some_0,
    )
}

/// Whether every language's settings fit the schema.
pub open spec fn langs_materialize(
    gm: Map<Seq<char>, LanguageView>,
    lm: Map<Seq<char>, LanguageView>,
    base: Option<SettingView>,
) -> bool {
    forall|k: Seq<char>|
        (gm.contains_key(k) || lm.contains_key(k)) && #[trigger] lang_editor_raw(base, gm.get(k), lm.get(k)) is Some
            ==> editor_of(lang_editor_raw(base, gm.get(k), lm.get(k))->Some_0) is Some
}

/// The per-language typed settings.
pub open spec fn editor_lang_of(
    gm: Map<Seq<char>, LanguageView>,
    lm: Map<Seq<char>, LanguageView>,
    base: Option<SettingView>,
) -> Map<Seq<char>, EditorConfig> {
    Map::new(
        |k: Seq<char>| (gm.contains_key(k) || lm.contains_key(k)) && lang_editor_raw(base, gm.get(k), lm.get(k)) is Some,
        |k: Seq<char>| editor_of(lang_editor_raw(base, gm.get(k), lm.get(k))->Some_0)->Some_0,
    )
}

/// Why a configuration could not be loaded.
#[derive(Debug, PartialEq, Eq)]
pub enum ConfigLoadError {
    /// A document is malformed or breaks the schema: always fatal.
    BadConfig(String),
    /// A document could not be had: it then contributes nothing.
    Error(String),
}

impl Default for ConfigLoadError {
    fn default() -> (r: ConfigLoadError)
        ensures
            r matches ConfigLoadError::Error(m) && m@ == "not found"@,
    {
        ConfigLoadError::Error("not found".to_owned())
    }
}

impl ConfigLoadError {
    /// The cause, as text.
    pub fn to_string(&self) -> (r: String)
        ensures
            r@ == match self {
                ConfigLoadError::BadConfig(m) => m@,
                ConfigLoadError::Error(m) => m@,
            },
    {
        match self {
            ConfigLoadError::BadConfig(m) => m.clone(),
            ConfigLoadError::Error(m) => m.clone(),
        }
    }
}

/// Applies the global, then the local key overrides onto `dst`.
fn merge_config_keys(dst: Keymap, global_keys: Option<&Keymap>, local_keys: Option<&Keymap>) -> (r: Keymap)
    ensures
        r@ == layer_opt(
            layer_opt(dst@, match global_keys { Some(k) => Some(k@), None => None }),
            match local_keys { Some(k) => Some(k@), None => None },
        ),
{
    let mut dst = dst;
    if let Some(g) = global_keys {
        merge_keys(&mut dst, g);
    }
    if let Some(l) = local_keys {
        merge_keys(&mut dst, l);
    }
    dst
}

pub open spec fn setting_opt(o: Option<Setting>) -> Option<SettingView> {
    match o {
        Some(v) => Some(v@),
        None => None,
    }
}

/// Deep-merges the local settings tree onto the global one.
fn merge_editor_toml(global_editor: Option<Setting>, local_editor: Option<Setting>) -> (r: Option<Setting>)
    ensures
        setting_opt(r) == merge_opt(setting_opt(global_editor), setting_opt(local_editor)),
{
    match (global_editor, local_editor) {
        (None, None) => None,
        (None, Some(v)) => Some(v),
        (Some(v), None) => Some(v),
        (Some(g), Some(l)) => Some(merge_toml_values(g, l, 3)),
    }
}

/// Turns a settings tree into typed settings.
fn map_editor_config(editor_value: Option<Setting>) -> (r: Result<EditorConfig, ConfigLoadError>)
    ensures
        r matches Ok(c) ==> materialized(setting_opt(editor_value)) == Some(c),
        r matches Err(e) ==> materialized(setting_opt(editor_value)) is None && e is BadConfig,
{
    match editor_value {
        None => Ok(EditorConfig::default()),
        Some(v) => match editor_from(v) {
            Ok(c) => Ok(c),
            Err(m) => Err(ConfigLoadError::BadConfig(m)),
        },
    }
}

fn copy_setting_opt(o: Option<&Setting>) -> (r: Option<Setting>)
    ensures
        setting_opt(r) == match o { Some(v) => Some(v@), None => None },
{
    match o {
        Some(v) => Some(v.copy()),
        None => None,
    }
}

/// The language blocks of a document, with none where it has no list.
fn get_lang_config_map(languages: Option<Vec<LanguageConfigRaw>>) -> (r: Vec<LanguageConfigRaw>)
    ensures
        lang_map(lang_views(r@)) == langs_of(
            match languages {
                Some(l) => Some(lang_views(l@)),
                None => None,
            },
        ),
{
    match languages {
        Some(l) => l,
        None => {
            let r: Vec<LanguageConfigRaw> = Vec::new();
            proof {
                assert(lang_views(r@) =~= Seq::<LanguageView>::empty());
            }
            r
        },
    }
}

pub open spec fn names_cover(names: Seq<String>, n: int, k: Seq<char>) -> bool {
    exists|m: int| 0 <= m < n && #[trigger] names[m]@ == k
}

/// The names of the language blocks of both lists.
fn language_names(g: &Vec<LanguageConfigRaw>, l: &Vec<LanguageConfigRaw>) -> (r: Vec<String>)
    ensures
        forall|k: Seq<char>|
            #[trigger] names_cover(r@, r@.len() as int, k) <==> (lang_map(lang_views(g@)).contains_key(k)
                || lang_map(lang_views(l@)).contains_key(k)),
{
    let mut names: Vec<String> = Vec::new();
    let mut i: usize = 0;
    while i < g.len()
        invariant
            i <= g@.len(),
            names@.len() == i,
            forall|m: int| 0 <= m < i ==> #[trigger] names@[m]@ == g@[m].name@,
        decreases g@.len() - i,
    {
        names.push(g[i].name.clone());
        i = i + 1;
    }
    let mut j: usize = 0;
    while j < l.len()
        invariant
            j <= l@.len(),
            names@.len() == g@.len() + j,
            forall|m: int| 0 <= m < g@.len() ==> #[trigger] names@[m]@ == g@[m].name@,
            forall|m: int| 0 <= m < j ==> #[trigger] names@[g@.len() + m]@ == l@[m].name@,
        decreases l@.len() - j,
    {
        names.push(l[j].name.clone());
        j = j + 1;
    }
    proof {
        let gv = lang_views(g@);
        let lv = lang_views(l@);
        assert forall|k: Seq<char>|
            #[trigger] names_cover(names@, names@.len() as int, k) <==> (lang_map(gv).contains_key(k)
                || lang_map(lv).contains_key(k)) by {
            lemma_lang_dom(gv, k);
            lemma_lang_dom(lv, k);
            if names_cover(names@, names@.len() as int, k) {
                let m = choose|m: int| 0 <= m < names@.len() && #[trigger] names@[m]@ == k;
                if m < g@.len() {
                    assert(gv[m].name == k);
                } else {
                    assert(names@[g@.len() + (m - g@.len())]@ == l@[m - g@.len()].name@);
                    assert(lv[m - g@.len()].name == k);
                }
            }
            if lang_map(gv).contains_key(k) {
                let m = choose|m: int| 0 <= m < gv.len() && #[trigger] gv[m].name == k;
                assert(names@[m]@ == k);
            }
            if lang_map(lv).contains_key(k) {
                let m = choose|m: int| 0 <= m < lv.len() && #[trigger] lv[m].name == k;
                assert(names@[g@.len() + m]@ == k);
            }
        }
    }
    names
}

pub open spec fn theme_done(
    names: Seq<String>,
    j: int,
    gm: Map<Seq<char>, LanguageView>,
    lm: Map<Seq<char>, LanguageView>,
) -> Map<Seq<char>, Seq<char>> {
    Map::new(
        |k: Seq<char>| names_cover(names, j, k) && lang_theme(gm.get(k), lm.get(k)) is Some,
        |k: Seq<char>| lang_theme(gm.get(k), lm.get(k))->Some_0,
    )
}

pub open spec fn keys_done(
    names: Seq<String>,
    j: int,
    gm: Map<Seq<char>, LanguageView>,
    lm: Map<Seq<char>, LanguageView>,
    base: KeymapView,
) -> Map<Seq<char>, KeymapView> {
    Map::new(
        |k: Seq<char>| names_cover(names, j, k) && lang_keys(base, gm.get(k), lm.get(k)) is Some,
        |k: Seq<char>| lang_keys(base, gm.get(k), lm.get(k))->Some_0,
    )
}

pub open spec fn editor_done(
    names: Seq<String>,
    j: int,
    gm: Map<Seq<char>, LanguageView>,
    lm: Map<Seq<char>, LanguageView>,
    base: Option<SettingView>,
) -> Map<Seq<char>, EditorConfig> {
    Map::new(
        |k: Seq<char>| names_cover(names, j, k) && lang_editor_raw(base, gm.get(k), lm.get(k)) is Some,
        |k: Seq<char>| editor_of(lang_editor_raw(base, gm.get(k), lm.get(k))->Some_0)->Some_0,
    )
}

pub open spec fn lang_opt(o: Option<&LanguageConfigRaw>) -> Option<LanguageView> {
    match o {
        Some(l) => Some(l@),
        None => None,
    }
}

/// The three per-language tables, in the order theme, key map, settings.
pub type LangMaps = (Vec<(String, String)>, Vec<(String, Keymap)>, Vec<(String, EditorConfig)>);

/// Resolves every language that either list names, onto the resolved base key map and the merged
/// base settings tree.
fn get_lang_maps(
    lang_global: Vec<LanguageConfigRaw>,
    lang_local: Vec<LanguageConfigRaw>,
    merged_keys: &Keymap,
    editor_value: &Option<Setting>,
) -> (r: Result<LangMaps, ConfigLoadError>)
    ensures
        r matches Ok(m) ==> langs_materialize(
            lang_map(lang_views(lang_global@)),
            lang_map(lang_views(lang_local@)),
            setting_opt(*editor_value),
        ) && theme_table(m.0@) == theme_lang_of(
            lang_map(lang_views(lang_global@)),
            lang_map(lang_views(lang_local@)),
        ) && keys_table(m.1@) == keys_lang_of(
            lang_map(lang_views(lang_global@)),
            lang_map(lang_views(lang_local@)),
            merged_keys@,
        ) && editor_table(m.2@) == editor_lang_of(
            lang_map(lang_views(lang_global@)),
            lang_map(lang_views(lang_local@)),
            setting_opt(*editor_value),
        ),
        r matches Err(e) ==> e is BadConfig && !langs_materialize(
            lang_map(lang_views(lang_global@)),
            lang_map(lang_views(lang_local@)),
            setting_opt(*editor_value),
        ),
{
    let ghost gm = lang_map(lang_views(lang_global@));
    let ghost lm = lang_map(lang_views(lang_local@));
    let ghost base = setting_opt(*editor_value);
    let ghost bk = merged_keys@;
    let names = language_names(&lang_global, &lang_local);
    let mut theme_lang: Vec<(String, String)> = Vec::new();
    let mut keys_lang: Vec<(String, Keymap)> = Vec::new();
    let mut editor_lang: Vec<(String, EditorConfig)> = Vec::new();
    proof {
        assert(theme_table(theme_lang@) =~= theme_done(names@, 0, gm, lm));
        assert(keys_table(keys_lang@) =~= keys_done(names@, 0, gm, lm, bk));
        assert(editor_table(editor_lang@) =~= editor_done(names@, 0, gm, lm, base));
    }
    let mut j: usize = 0;
    while j < names.len()
        invariant
            j <= names@.len(),
            gm == lang_map(lang_views(lang_global@)),
            lm == lang_map(lang_views(lang_local@)),
            base == setting_opt(*editor_value),
            bk == merged_keys@,
            forall|k: Seq<char>|
                #[trigger] names_cover(names@, names@.len() as int, k) <==> (gm.contains_key(k)
                    || lm.contains_key(k)),
            forall|m: int|
                0 <= m < j && #[trigger] lang_editor_raw(base, gm.get(names@[m]@), lm.get(names@[m]@)) is Some
                    ==> editor_of(lang_editor_raw(base, gm.get(names@[m]@), lm.get(names@[m]@))->Some_0) is Some,
            theme_table(theme_lang@) == theme_done(names@, j as int, gm, lm),
            keys_table(keys_lang@) == keys_done(names@, j as int, gm, lm, bk),
            editor_table(editor_lang@) == editor_done(names@, j as int, gm, lm, base),
        decreases names@.len() - j,
    {
        let name = &names[j];
        let ghost k = name@;
        proof {
            assert(names_cover(names@, names@.len() as int, k));
        }
        let gl = find_language(&lang_global, name);
        let ll = find_language(&lang_local, name);
        let ghost g = lang_opt(gl);
        let ghost l = lang_opt(ll);
        assert(g == gm.get(k));
        assert(l == lm.get(k));

        let lt: Option<&String> = match ll {
            Some(x) => match &x.theme {
                Some(t) => Some(t),
                None => None,
            },
            None => None,
        };
        let gt: Option<&String> = match gl {
            Some(x) => match &x.theme {
                Some(t) => Some(t),
                None => None,
            },
            None => None,
        };
        let theme: Option<String> = match lt {
            Some(t) => Some(t.clone()),
            None => match gt {
                Some(t) => Some(t.clone()),
                None => None,
            },
        };
        assert(match theme { Some(t) => Some(t@), None => None::<Seq<char>> } == lang_theme(g, l));
        let ghost tl0 = theme_lang@;
        if let Some(t) = theme {
            theme_lang.push((name.clone(), t));
            proof {
                assert(theme_lang@.drop_last() =~= tl0);
            }
        }
        proof {
            assert(theme_table(theme_lang@) =~= theme_done(names@, j + 1, gm, lm)) by {
                assert forall|x: Seq<char>| names_cover(names@, j + 1, x) <==> names_cover(names@, j as int, x) || x == k by {
                    if names_cover(names@, j + 1, x) {
                        let m = choose|m: int| 0 <= m < j + 1 && #[trigger] names@[m]@ == x;
                        if m < j {
                            assert(names_cover(names@, j as int, x));
                        }
                    }
                    if names_cover(names@, j as int, x) {
                        let m = choose|m: int| 0 <= m < j && #[trigger] names@[m]@ == x;
                        assert(names@[m]@ == x);
                    }
                    if x == k {
                        assert(names@[j as int]@ == x);
                    }
                }
            }
        }

        let gk: Option<&Keymap> = match gl {
            Some(x) => match &x.keys {
                Some(m) => Some(m),
                None => None,
            },
            None => None,
        };
        let lk: Option<&Keymap> = match ll {
            Some(x) => match &x.keys {
                Some(m) => Some(m),
                None => None,
            },
            None => None,
        };
        let ghost kl0 = keys_lang@;
        if gk.is_some() || lk.is_some() {
            let km = merge_config_keys(merged_keys.copy(), gk, lk);
            keys_lang.push((name.clone(), km));
            proof {
                assert(keys_lang@.drop_last() =~= kl0);
            }
        }
        proof {
            assert(keys_table(keys_lang@) =~= keys_done(names@, j + 1, gm, lm, bk)) by {
                assert forall|x: Seq<char>| names_cover(names@, j + 1, x) <==> names_cover(names@, j as int, x) || x == k by {
                    if names_cover(names@, j + 1, x) {
                        let m = choose|m: int| 0 <= m < j + 1 && #[trigger] names@[m]@ == x;
                        if m < j {
                            assert(names_cover(names@, j as int, x));
                        }
                    }
                    if names_cover(names@, j as int, x) {
                        let m = choose|m: int| 0 <= m < j && #[trigger] names@[m]@ == x;
                        assert(names@[m]@ == x);
                    }
                    if x == k {
                        assert(names@[j as int]@ == x);
                    }
                }
            }
        }

        let ge: Option<&Setting> = match gl {
            Some(x) => match &x.editor {
                Some(v) => Some(v),
                None => None,
            },
            None => None,
        };
        let le: Option<&Setting> = match ll {
            Some(x) => match &x.editor {
                Some(v) => Some(v),
                None => None,
            },
            None => None,
        };
        let ghost el0 = editor_lang@;
        if ge.is_some() || le.is_some() {
            let base_copy = match editor_value {
                Some(v) => Some(v.copy()),
                None => None,
            };
            let side = merge_editor_toml(copy_setting_opt(ge), copy_setting_opt(le));
            let raw = merge_editor_toml(base_copy, side);
            assert(setting_opt(raw) == lang_editor_raw(base, g, l));
            match map_editor_config(raw) {
                Ok(c) => {
                    editor_lang.push((name.clone(), c));
                    proof {
                        assert(editor_lang@.drop_last() =~= el0);
                    }
                },
                Err(e) => {
                    proof {
                        assert(gm.contains_key(k) || lm.contains_key(k));
                        assert(lang_editor_raw(base, gm.get(k), lm.get(k)) is Some);
                    }
                    return Err(e);
                },
            }
        }
        proof {
            assert(editor_table(editor_lang@) =~= editor_done(names@, j + 1, gm, lm, base)) by {
                assert forall|x: Seq<char>| names_cover(names@, j + 1, x) <==> names_cover(names@, j as int, x) || x == k by {
                    if names_cover(names@, j + 1, x) {
                        let m = choose|m: int| 0 <= m < j + 1 && #[trigger] names@[m]@ == x;
                        if m < j {
                            assert(names_cover(names@, j as int, x));
                        }
                    }
                    if names_cover(names@, j as int, x) {
                        let m = choose|m: int| 0 <= m < j && #[trigger] names@[m]@ == x;
                        assert(names@[m]@ == x);
                    }
                    if x == k {
                        assert(names@[j as int]@ == x);
                    }
                }
            }
        }
        j = j + 1;
    }
    proof {
        assert(theme_table(theme_lang@) =~= theme_lang_of(gm, lm));
        assert(keys_table(keys_lang@) =~= keys_lang_of(gm, lm, bk));
        assert(editor_table(editor_lang@) =~= editor_lang_of(gm, lm, base));
        assert forall|x: Seq<char>|
            (gm.contains_key(x) || lm.contains_key(x)) && #[trigger] lang_editor_raw(base, gm.get(x), lm.get(x)) is Some
                implies editor_of(lang_editor_raw(base, gm.get(x), lm.get(x))->Some_0) is Some by {
            assert(names_cover(names@, names@.len() as int, x));
            let m = choose|m: int| 0 <= m < names@.len() && #[trigger] names@[m]@ == x;
            assert(lang_editor_raw(base, gm.get(names@[m]@), lm.get(names@[m]@)) is Some);
        }
    }
    Ok((theme_lang, keys_lang, editor_lang))
}

/// A name for what `toml::from_str` reads out of a text: the tree it describes, or nothing
/// where the text is not TOML.
pub uninterp spec fn toml_document(text: Seq<char>) -> Option<SettingView>;

/// Relies on `toml::from_str::<toml::Value>`: it parses a text as TOML, or reports why it cannot;
/// the tree it returns depends on the text alone.
#[verifier::external_body]
fn parse_toml(text: &str) -> (r: Result<Setting, String>)
    ensures
        r matches Ok(v) ==> toml_document(text@) == Some(v@),
        r is Err ==> toml_document(text@) is None,
{
    match toml::from_str::<toml::Value>(text) {
        Ok(v) => Ok(setting_of_toml(v)),
        Err(e) => Err(e.to_string()),
    }
}

/// Relies on the variants of `toml::Value`: each moves into the variant of `Setting` of the same
/// shape; a float or a date stays an opaque leaf.
#[verifier::external_body]
fn setting_of_toml(v: toml::Value) -> Setting {
    match v {
        toml::Value::String(s) => Setting::Str(s),
        toml::Value::Integer(i) => Setting::Int(i),
        toml::Value::Boolean(b) => Setting::Bool(b),
        toml::Value::Array(a) => Setting::Array(a.into_iter().map(setting_of_toml).collect()),
        toml::Value::Table(t) => Setting::Table(t.into_iter().map(|(k, x)| (k, setting_of_toml(x))).collect()),
        other => Setting::Other(other),
    }
}

/// The document that a text describes: TOML that fits the schema.
pub open spec fn raw_doc(text: Seq<char>) -> Option<RawView> {
    match toml_document(text) {
        Some(v) => raw_of(v),
        None => None,
    }
}

/// Parses one configuration text into a document, refusing malformed input.
pub fn parse_config(text: &str) -> (r: Result<ConfigRaw, ConfigLoadError>)
    ensures
        r matches Ok(c) ==> raw_doc(text@) == Some(c@),
        r matches Err(e) ==> raw_doc(text@) is None && e is BadConfig,
{
    match parse_toml(text) {
        Ok(v) => match raw_from(&v) {
            Ok(c) => Ok(c),
            Err(m) => Err(ConfigLoadError::BadConfig(m)),
        },
        Err(m) => Err(ConfigLoadError::BadConfig(m)),
    }
}

/// How one input stands: malformed, missing, or a well-formed document.
pub enum Outcome {
    Malformed,
    Missing,
    Doc(RawView),
}

pub open spec fn outcome(input: Result<String, ConfigLoadError>) -> Outcome {
    match input {
        Ok(text) => match raw_doc(text@) {
            Some(d) => Outcome::Doc(d),
            None => Outcome::Malformed,
        },
        Err(ConfigLoadError::BadConfig(_)) => Outcome::Malformed,
        Err(ConfigLoadError::Error(_)) => Outcome::Missing,
    }
}

/// A resolved configuration, as maps.
pub struct ConfigView {
    pub theme: Option<Seq<char>>,
    pub theme_lang: Map<Seq<char>, Seq<char>>,
    pub keys: KeymapView,
    pub keys_lang: Map<Seq<char>, KeymapView>,
    pub editor: EditorConfig,
    pub editor_lang: Map<Seq<char>, EditorConfig>,
}

/// The configuration that a global and an optional local document resolve to, or nothing where
/// some settings tree, the base one or a language's, does not fit the schema.
pub open spec fn resolved(g: RawView, l: Option<RawView>) -> Option<ConfigView> {
    let lk = match l {
        Some(d) => d.keys,
        None => None,
    };
    let le = match l {
        Some(d) => d.editor,
        None => None,
    };
    let lt = match l {
        Some(d) => d.theme,
        None => None,
    };
    let ll = match l {
        Some(d) => langs_of(d.languages),
        None => Map::empty(),
    };
    let gl = langs_of(g.languages);
    let keys = layer_opt(layer_opt(default_keys(), g.keys), lk);
    let base = merge_opt(g.editor, le);
    if materialized(base) is Some && langs_materialize(gl, ll, base) {
        Some(
            ConfigView {
                theme: match lt {
                    Some(t) => Some(t),
                    None => g.theme,
                },
                theme_lang: theme_lang_of(gl, ll),
                keys,
                keys_lang: keys_lang_of(gl, ll, keys),
                editor: materialized(base)->Some_0,
                editor_lang: editor_lang_of(gl, ll, base),
            },
        )
    } else {
        None
    }
}

/// The resolved configuration: a theme, a key map and typed editor settings, each with its
/// per-language overrides.
#[derive(Debug, PartialEq)]
pub struct Config {
    pub theme: Option<String>,
    pub theme_lang: Vec<(String, String)>,
    pub keys: Keymap,
    pub keys_lang: Vec<(String, Keymap)>,
    pub editor: EditorConfig,
    pub editor_lang: Vec<(String, EditorConfig)>,
}

impl View for Config {
    type V = ConfigView;

    open spec fn view(&self) -> ConfigView {
        ConfigView {
            theme: match self.theme {
                Some(t) => Some(t@),
                None => None,
            },
            theme_lang: theme_table(self.theme_lang@),
            keys: self.keys@,
            keys_lang: keys_table(self.keys_lang@),
            editor: self.editor,
            editor_lang: editor_table(self.editor_lang@),
        }
    }
}

pub open spec fn raw_opt(o: Option<ConfigRaw>) -> Option<RawView> {
    match o {
        Some(l) => Some(l@),
        None => None,
    }
}

/// What loading owes for a global and an optional local document.
pub open spec fn loads_as(r: Result<Config, ConfigLoadError>, g: RawView, l: Option<RawView>) -> bool {
    match resolved(g, l) {
        Some(c) => r matches Ok(x) && x@ == c,
        None => r matches Err(e) && e is BadConfig,
    }
}

impl Default for Config {
    fn default() -> (r: Config)
        ensures
            r@.theme is None,
            r@.theme_lang == Map::<Seq<char>, Seq<char>>::empty(),
            r@.keys == default_keys(),
            r@.keys_lang == Map::<Seq<char>, KeymapView>::empty(),
            r@.editor == default_editor(),
            r@.editor_lang == Map::<Seq<char>, EditorConfig>::empty(),
    {
        Config {
            theme: None,
            theme_lang: Vec::new(),
            keys: default_keymap(),
            keys_lang: Vec::new(),
            editor: EditorConfig::default(),
            editor_lang: Vec::new(),
        }
    }
}

impl Config {
    /// Loads the configuration from the global and the local (workspace) text, either of which may
    /// be missing. A malformed document is fatal, the global one's error first; a missing one
    /// contributes nothing; where both are missing, the global one's error is returned.
    pub fn load(global: Result<String, ConfigLoadError>, local: Result<String, ConfigLoadError>) -> (r:
        Result<Config, ConfigLoadError>)
        ensures
            match (outcome(global), outcome(local)) {
                (Outcome::Malformed, _) => r matches Err(e) && e is BadConfig && (global matches Err(
                    ge,
                ) ==> r == Err::<Config, ConfigLoadError>(ge)),
                (_, Outcome::Malformed) => r matches Err(e) && e is BadConfig && (local matches Err(
                    le,
                ) ==> r == Err::<Config, ConfigLoadError>(le)),
                (Outcome::Missing, Outcome::Missing) => global matches Err(ge) && r == Err::<
                    Config,
                    ConfigLoadError,
                >(ge),
                (Outcome::Doc(g), Outcome::Doc(l)) => loads_as(r, g, Some(l)),
                (Outcome::Doc(d), Outcome::Missing) => loads_as(r, d, None),
                (Outcome::Missing, Outcome::Doc(d)) => loads_as(r, d, None),
            },
    {
        let global_config = match global {
            Ok(text) => parse_config(text.as_str()),
            Err(e) => Err(e),
        };
        let local_config = match local {
            Ok(text) => parse_config(text.as_str()),
            Err(e) => Err(e),
        };
        match (global_config, local_config) {
            (Err(ConfigLoadError::BadConfig(m)), _) => Err(ConfigLoadError::BadConfig(m)),
            (_, Err(ConfigLoadError::BadConfig(m))) => Err(ConfigLoadError::BadConfig(m)),
            (Ok(g), Ok(l)) => Config::resolve(g, Some(l)),
            (Ok(c), Err(_)) => Config::resolve(c, None),
            (Err(_), Ok(c)) => Config::resolve(c, None),
            (Err(e), Err(_)) => Err(e),
        }
    }

    fn resolve(global: ConfigRaw, local: Option<ConfigRaw>) -> (r: Result<Config, ConfigLoadError>)
        ensures
            loads_as(r, global@, raw_opt(local)),
    {
        let ghost lv = raw_opt(local);
        let ConfigRaw { theme: g_theme, keys: g_keys, editor: g_editor, languages: g_langs } = global;
        let (l_theme, l_keys, l_editor, l_langs) = match local {
            Some(ConfigRaw { theme, keys, editor, languages }) => (theme, keys, editor, Some(languages)),
            None => (None, None, None, None),
        };
        let keys = merge_config_keys(default_keymap(), g_keys.as_ref(), l_keys.as_ref());
        let editor_value = merge_editor_toml(g_editor, l_editor);
        let lang_global = get_lang_config_map(g_langs);
        let lang_local = match l_langs {
            Some(l) => get_lang_config_map(l),
            None => get_lang_config_map(None),
        };
        let (theme_lang, keys_lang, editor_lang) = match get_lang_maps(lang_global, lang_local, &keys, &editor_value) {
            Ok(m) => m,
            Err(e) => return Err(e),
        };
        let editor = match map_editor_config(editor_value) {
            Ok(c) => c,
            Err(e) => return Err(e),
        };
        let theme = match l_theme {
            Some(t) => Some(t),
            None => g_theme,
        };
        let r = Config { theme, theme_lang, keys, keys_lang, editor, editor_lang };
        proof {
            assert(r@ == resolved(global@, lv)->Some_0);
        }
        Ok(r)
    }
}

/// A document that gives nothing.
pub open spec fn empty_raw() -> RawView {
    RawView { theme: None, keys: None, editor: None, languages: None }
}

/// A document that gives nothing, alone, resolves to the defaults: the built-in key map, the
/// default settings, no theme and no language overrides.
pub proof fn lemma_empty_document_defaults()
    ensures
        resolved(empty_raw(), None) matches Some(c) && c.theme is None && c.keys == default_keys()
            && c.editor == default_editor() && c.theme_lang == Map::<Seq<char>, Seq<char>>::empty()
            && c.keys_lang == Map::<Seq<char>, KeymapView>::empty() && c.editor_lang == Map::<
            Seq<char>,
            EditorConfig,
        >::empty(),
{
    let c = resolved(empty_raw(), None)->Some_0;
    assert(c.theme_lang =~= Map::<Seq<char>, Seq<char>>::empty());
    assert(c.keys_lang =~= Map::<Seq<char>, KeymapView>::empty());
    assert(c.editor_lang =~= Map::<Seq<char>, EditorConfig>::empty());
}

/// A document resolved alone resolves as it does beside a local document that gives nothing.
pub proof fn lemma_single_document(d: RawView)
    ensures
        resolved(d, None) == resolved(d, Some(empty_raw())),
{
}

/// A language block that gives only keys yields a key map for that language, the block's keys
/// layered onto the resolved base key map, and neither a theme nor settings of its own.
pub proof fn lemma_language_isolation(
    g: RawView,
    l: Option<RawView>,
    name: Seq<char>,
    k: KeymapView,
)
    requires
        langs_of(g.languages).get(name) == Some(
            LanguageView { name, theme: None, keys: Some(k), editor: None },
        ),
        l matches Some(d) ==> !langs_of(d.languages).contains_key(name),
    ensures
        resolved(g, l) matches Some(c) ==> !c.theme_lang.contains_key(name)
            && !c.editor_lang.contains_key(name) && c.keys_lang.contains_key(name)
            && c.keys_lang[name] == layer_keymap(c.keys, k),
{
    let ll = match l {
        Some(d) => langs_of(d.languages),
        None => Map::empty(),
    };
    assert(ll.get(name) is None);
}

} // verus!

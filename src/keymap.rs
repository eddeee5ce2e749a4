use vstd::prelude::*;

verus! {

/// The editing modes that carry a key table of their own.
#[derive(Clone, Copy, Debug, PartialEq, Eq, Structural)]
pub enum Mode {
    Normal,
    Select,
    Insert,
}

/// A key, written as in a configuration file (`"y"`, `"A-F12"`), bound to a command name.
#[derive(Clone, Debug, PartialEq, Eq)]
pub struct Binding {
    pub key: String,
    pub command: String,
}

/// What a list of bindings means: for each key, the command of its last binding.
pub open spec fn bindings_table(s: Seq<Binding>) -> Map<Seq<char>, Seq<char>>
    decreases s.len(),
{
    if s.len() == 0 {
        Map::empty()
    } else {
        bindings_table(s.drop_last()).insert(s.last().key@, s.last().command@)
    }
}

/// The key table of one mode. Two tables are equal when they bind the same keys to the same
/// commands, whatever the order of their bindings.
#[derive(Debug)]
pub struct KeyTrie {
    pub bindings: Vec<Binding>,
}

impl View for KeyTrie {
    type V = Map<Seq<char>, Seq<char>>;

    open spec fn view(&self) -> Map<Seq<char>, Seq<char>> {
        bindings_table(self.bindings@)
    }
}

fn copy_string(s: &String) -> (r: String)
    ensures
        r@ == s@,
{
    s.clone()
}

impl KeyTrie {
    pub fn new() -> (r: KeyTrie)
        ensures
            r@ == Map::<Seq<char>, Seq<char>>::empty(),
    {
        KeyTrie { bindings: Vec::new() }
    }

    /// A copy of this table.
    pub fn copy(&self) -> (r: KeyTrie)
        ensures
            r@ == self@,
    {
        let mut out: Vec<Binding> = Vec::new();
        let mut i: usize = 0;
        while i < self.bindings.len()
            invariant
                i <= self.bindings@.len(),
                bindings_table(out@) == bindings_table(self.bindings@.subrange(0, i as int)),
            decreases self.bindings@.len() - i,
        {
            let b = Binding { key: copy_string(&self.bindings[i].key), command: copy_string(&self.bindings[i].command) };
            proof {
                assert(out@.push(b).drop_last() =~= out@);
                assert(self.bindings@.subrange(0, i + 1).drop_last() =~= self.bindings@.subrange(0, i as int));
            }
            out.push(b);
            i = i + 1;
        }
        proof {
            assert(self.bindings@.subrange(0, i as int) =~= self.bindings@);
        }
        KeyTrie { bindings: out }
    }

    /// Binds `key` to `command`, replacing what `key` was bound to.
    pub fn bind(&mut self, key: &str, command: &str)
        ensures
            final(self)@ == old(self)@.insert(key@, command@),
    {
        let ghost before = self.bindings@;
        self.bindings.push(Binding { key: key.to_owned(), command: command.to_owned() });
        proof {
            assert(self.bindings@.drop_last() =~= before);
        }
    }

    /// The command that `key` is bound to.
    pub fn get(&self, key: &str) -> (r: Option<String>)
        ensures
            r matches Some(c) ==> self@.contains_key(key@) && c@ == self@[key@],
            r is None ==> !self@.contains_key(key@),
    {
        let wanted = key.to_owned();
        let mut i: usize = self.bindings.len();
        while i > 0
            invariant
                i <= self.bindings@.len(),
                wanted@ == key@,
                forall|m: int| i <= m < self.bindings@.len() ==> #[trigger] self.bindings@[m].key@ != key@,
            decreases i,
        {
            let b = &self.bindings[i - 1];
            if b.key == wanted {
                proof {
                    lemma_table_suffix(self.bindings@, i as int, key@);
                    assert(self.bindings@.subrange(0, i as int).drop_last() =~= self.bindings@.subrange(0, i - 1));
                }
                return Some(copy_string(&b.command));
            }
            i = i - 1;
        }
        proof {
            lemma_table_suffix(self.bindings@, 0, key@);
            assert(self.bindings@.subrange(0, 0) =~= Seq::<Binding>::empty());
        }
        None
    }
}

/// Bindings after position `i` that miss `k` leave its entry as the prefix up to `i` has it.
proof fn lemma_table_suffix(s: Seq<Binding>, i: int, k: Seq<char>)
    requires
        0 <= i <= s.len(),
        forall|m: int| i <= m < s.len() ==> #[trigger] s[m].key@ != k,
    ensures
        bindings_table(s).contains_key(k) == bindings_table(s.subrange(0, i)).contains_key(k),
        bindings_table(s)[k] == bindings_table(s.subrange(0, i))[k],
    decreases s.len(),
{
    if s.len() == i {
        assert(s.subrange(0, i) =~= s);
    } else {
        lemma_table_suffix(s.drop_last(), i, k);
        assert(s.drop_last().subrange(0, i) =~= s.subrange(0, i));
    }
}

proof fn lemma_table_dom(s: Seq<Binding>, k: Seq<char>)
    ensures
        bindings_table(s).contains_key(k) <==> exists|i: int| 0 <= i < s.len() && #[trigger] s[i].key@ == k,
    decreases s.len(),
{
    if s.len() > 0 {
        lemma_table_dom(s.drop_last(), k);
        if bindings_table(s.drop_last()).contains_key(k) {
            let i = choose|i: int| 0 <= i < s.drop_last().len() && #[trigger] s.drop_last()[i].key@ == k;
            assert(s[i].key@ == k);
        }
        if exists|i: int| 0 <= i < s.len() && #[trigger] s[i].key@ == k {
            let i = choose|i: int| 0 <= i < s.len() && #[trigger] s[i].key@ == k;
            if i < s.len() - 1 {
                assert(s.drop_last()[i].key@ == k);
            }
        }
    }
}

/// Whether every key that `a` binds is bound to the same command in `b`.
fn covers(a: &KeyTrie, b: &KeyTrie) -> (r: bool)
    ensures
        r == forall|k: Seq<char>|
            #[trigger] a@.contains_key(k) ==> b@.contains_key(k) && b@[k] == a@[k],
{
    let mut i: usize = 0;
    while i < a.bindings.len()
        invariant
            i <= a.bindings@.len(),
            forall|m: int|
                0 <= m < i ==> b@.contains_key(#[trigger] a.bindings@[m].key@) && b@[a.bindings@[m].key@]
                    == a@[a.bindings@[m].key@],
        decreases a.bindings@.len() - i,
    {
        let key = a.bindings[i].key.as_str();
        let x = a.get(key);
        let y = b.get(key);
        proof {
            lemma_table_dom(a.bindings@, key@);
            assert(a.bindings@[i as int].key@ == key@);
        }
        let same = match (x, y) {
            (Some(p), Some(q)) => p == q,
            _ => false,
        };
        if !same {
            return false;
        }
        i = i + 1;
    }
    proof {
        assert forall|k: Seq<char>| #[trigger] a@.contains_key(k) implies b@.contains_key(k) && b@[k] == a@[k] by {
            lemma_table_dom(a.bindings@, k);
            let m = choose|m: int| 0 <= m < a.bindings@.len() && #[trigger] a.bindings@[m].key@ == k;
        }
    }
    true
}

impl PartialEq for KeyTrie {
    fn eq(&self, o: &KeyTrie) -> (r: bool) {
        let r = covers(self, o) && covers(o, self);
        proof {
            if r {
                assert(self@ =~= o@);
            }
        }
        r
    }
}

impl vstd::std_specs::cmp::PartialEqSpecImpl for KeyTrie {
    open spec fn obeys_eq_spec() -> bool {
        true
    }

    open spec fn eq_spec(&self, o: &KeyTrie) -> bool {
        self@ == o@
    }
}

/// Layering: the bindings of `over` win, the other keys of `base` stay.
pub open spec fn layer_table(
    base: Map<Seq<char>, Seq<char>>,
    over: Map<Seq<char>, Seq<char>>,
) -> Map<Seq<char>, Seq<char>> {
    base.union_prefer_right(over)
}

/// Applies the bindings of `over` onto `dst`.
pub fn merge_trie(dst: &mut KeyTrie, over: &KeyTrie)
    ensures
        final(dst)@ == layer_table(old(dst)@, over@),
{
    let n = over.bindings.len();
    let mut j: usize = 0;
    while j < n
        invariant
            n == over.bindings@.len(),
            j <= n,
            dst@ == layer_table(old(dst)@, bindings_table(over.bindings@.subrange(0, j as int))),
        decreases n - j,
    {
        let b = &over.bindings[j];
        let ghost before = dst.bindings@;
        dst.bindings.push(Binding { key: copy_string(&b.key), command: copy_string(&b.command) });
        proof {
            let s = over.bindings@.subrange(0, j + 1);
            assert(s.drop_last() =~= over.bindings@.subrange(0, j as int));
            assert(dst.bindings@.drop_last() =~= before);
            assert(dst@ =~= layer_table(old(dst)@, bindings_table(s)));
        }
        j = j + 1;
    }
    proof {
        assert(over.bindings@.subrange(0, n as int) =~= over.bindings@);
    }
}

/// A key table for every mode.
#[derive(Debug, PartialEq)]
pub struct Keymap {
    pub normal: KeyTrie,
    pub select: KeyTrie,
    pub insert: KeyTrie,
}

impl View for Keymap {
    type V = Map<Mode, Map<Seq<char>, Seq<char>>>;

    open spec fn view(&self) -> Map<Mode, Map<Seq<char>, Seq<char>>> {
        Map::new(
            |m: Mode| true,
            |m: Mode|
                match m {
                    Mode::Normal => self.normal@,
                    Mode::Select => self.select@,
                    Mode::Insert => self.insert@,
                },
        )
    }
}

/// Layering of whole key maps, mode by mode.
pub open spec fn layer_keymap(
    base: Map<Mode, Map<Seq<char>, Seq<char>>>,
    over: Map<Mode, Map<Seq<char>, Seq<char>>>,
) -> Map<Mode, Map<Seq<char>, Seq<char>>> {
    Map::new(|m: Mode| base.contains_key(m), |m: Mode| layer_table(base[m], over[m]))
}

/// An empty key table for every mode.
pub open spec fn empty_keymap() -> Map<Mode, Map<Seq<char>, Seq<char>>> {
    Map::new(|m: Mode| true, |m: Mode| Map::<Seq<char>, Seq<char>>::empty())
}

impl Keymap {
    /// A key map that binds nothing, in every mode.
    pub fn empty() -> (r: Keymap)
        ensures
            r@ == empty_keymap(),
    {
        let r = Keymap { normal: KeyTrie::new(), select: KeyTrie::new(), insert: KeyTrie::new() };
        proof {
            assert(r@ =~= empty_keymap());
        }
        r
    }

    /// A copy of this key map.
    pub fn copy(&self) -> (r: Keymap)
        ensures
            r@ == self@,
    {
        let r = Keymap { normal: self.normal.copy(), select: self.select.copy(), insert: self.insert.copy() };
        proof {
            assert(r@ =~= self@);
        }
        r
    }

    /// The key table of `mode`.
    pub fn get(&self, mode: Mode) -> (r: &KeyTrie)
        ensures
            r@ == self@[mode],
    {
        match mode {
            Mode::Normal => &self.normal,
            Mode::Select => &self.select,
            Mode::Insert => &self.insert,
        }
    }
}

/// Layers the bindings of `delta` onto every mode of `dst`.
pub fn merge_keys(dst: &mut Keymap, delta: &Keymap)
    ensures
        final(dst)@ == layer_keymap(old(dst)@, delta@),
{
    merge_trie(&mut dst.normal, &delta.normal);
    merge_trie(&mut dst.select, &delta.select);
    merge_trie(&mut dst.insert, &delta.insert);
    proof {
        assert(dst@ =~= layer_keymap(old(dst)@, delta@));
    }
}

/// The built-in bindings of one mode.
pub open spec fn default_table(m: Mode) -> Map<Seq<char>, Seq<char>> {
    match m {
        Mode::Normal => Map::<Seq<char>, Seq<char>>::empty()
            .insert("h"@, "move_char_left"@)
            .insert("j"@, "move_line_down"@)
            .insert("k"@, "move_line_up"@)
            .insert("l"@, "move_char_right"@)
            .insert("w"@, "move_next_word_start"@)
            .insert("b"@, "move_prev_word_start"@)
            .insert("e"@, "move_next_word_end"@)
            .insert("i"@, "insert_mode"@)
            .insert("a"@, "append_mode"@)
            .insert("v"@, "select_mode"@)
            .insert("d"@, "delete_selection"@)
            .insert("u"@, "undo"@)
            .insert("U"@, "redo"@)
            .insert("y"@, "yank"@)
            .insert("p"@, "paste_after"@),
        Mode::Select => Map::<Seq<char>, Seq<char>>::empty()
            .insert("h"@, "extend_char_left"@)
            .insert("j"@, "extend_line_down"@)
            .insert("k"@, "extend_line_up"@)
            .insert("l"@, "extend_char_right"@)
            .insert("w"@, "extend_next_word_start"@)
            .insert("b"@, "extend_prev_word_start"@)
            .insert("e"@, "extend_next_word_end"@)
            .insert("esc"@, "normal_mode"@)
            .insert("v"@, "normal_mode"@),
        Mode::Insert => Map::<Seq<char>, Seq<char>>::empty()
            .insert("esc"@, "normal_mode"@)
            .insert("backspace"@, "delete_char_backward"@)
            .insert("del"@, "delete_char_forward"@)
            .insert("ret"@, "insert_newline"@)
            .insert("tab"@, "insert_tab"@)
            .insert("C-w"@, "delete_word_backward"@),
    }
}

/// The built-in bindings of every mode.
pub open spec fn default_keys() -> Map<Mode, Map<Seq<char>, Seq<char>>> {
    Map::new(|m: Mode| true, |m: Mode| default_table(m))
}

/// The built-in bindings that every configuration starts from.
pub fn default_keymap() -> (r: Keymap)
    ensures
        r@ == default_keys(),
{
    let mut normal = KeyTrie::new();
    normal.bind("h", "move_char_left");
    normal.bind("j", "move_line_down");
    normal.bind("k", "move_line_up");
    normal.bind("l", "move_char_right");
    normal.bind("w", "move_next_word_start");
    normal.bind("b", "move_prev_word_start");
    normal.bind("e", "move_next_word_end");
    normal.bind("i", "insert_mode");
    normal.bind("a", "append_mode");
    normal.bind("v", "select_mode");
    normal.bind("d", "delete_selection");
    normal.bind("u", "undo");
    normal.bind("U", "redo");
    normal.bind("y", "yank");
    normal.bind("p", "paste_after");
    let mut select = KeyTrie::new();
    select.bind("h", "extend_char_left");
    select.bind("j", "extend_line_down");
    select.bind("k", "extend_line_up");
    select.bind("l", "extend_char_right");
    select.bind("w", "extend_next_word_start");
    select.bind("b", "extend_prev_word_start");
    select.bind("e", "extend_next_word_end");
    select.bind("esc", "normal_mode");
    select.bind("v", "normal_mode");
    let mut insert = KeyTrie::new();
    insert.bind("esc", "normal_mode");
    insert.bind("backspace", "delete_char_backward");
    insert.bind("del", "delete_char_forward");
    insert.bind("ret", "insert_newline");
    insert.bind("tab", "insert_tab");
    insert.bind("C-w", "delete_word_backward");
    let r = Keymap { normal, select, insert };
    proof {
        assert(r@ =~= default_keys());
    }
    r
}

} // verus!

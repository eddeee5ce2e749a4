use vstd::prelude::*;

verus! {

#[verifier::external_type_specification]
#[verifier::external_body]
pub struct ExTomlValue(toml::Value);

/// Relies on `toml::Value`'s `Clone`: a float or a date is carried through as an opaque leaf.
pub assume_specification[ <toml::Value as core::clone::Clone>::clone ](v: &toml::Value) -> toml::Value;

/// An untyped settings tree, as a configuration file writes it.
#[derive(Debug, PartialEq)]
pub enum Setting {
    Str(String),
    Int(i64),
    Bool(bool),
    Array(Vec<Setting>),
    Table(Vec<(String, Setting)>),
    /// A float or a date, carried through as the file gave it.
    Other(toml::Value),
}

/// The meaning of a settings tree: a table is a map from key to value.
pub enum SettingView {
    Str(Seq<char>),
    Int(int),
    Bool(bool),
    Array(Seq<SettingView>),
    Table(Map<Seq<char>, SettingView>),
    Other,
}

pub open spec fn setting_view(v: Setting) -> SettingView
    decreases v,
{
    match v {
        Setting::Str(s) => SettingView::Str(s@),
        Setting::Int(i) => SettingView::Int(i as int),
        Setting::Bool(b) => SettingView::Bool(b),
        Setting::Array(items) => SettingView::Array(items_view(items@)),
        Setting::Table(entries) => SettingView::Table(entries_view(entries@)),
        Setting::Other(_) => SettingView::Other,
    }
}

pub open spec fn items_view(s: Seq<Setting>) -> Seq<SettingView>
    decreases s,
{
    if s.len() == 0 {
        Seq::empty()
    } else {
        items_view(s.drop_last()).push(setting_view(s.last()))
    }
}

/// A table's entries mean, for each key, the value of its last entry.
pub open spec fn entries_view(s: Seq<(String, Setting)>) -> Map<Seq<char>, SettingView>
    decreases s,
{
    if s.len() == 0 {
        Map::empty()
    } else {
        entries_view(s.drop_last()).insert(s.last().0@, setting_view(s.last().1))
    }
}

impl View for Setting {
    type V = SettingView;

    open spec fn view(&self) -> SettingView {
        setting_view(*self)
    }
}

/// Deep merge: tables merge key by key while `depth` lasts; otherwise `b` wins outright.
pub open spec fn merged(a: SettingView, b: SettingView, depth: nat) -> SettingView
    decreases depth,
{
    match (a, b) {
        (SettingView::Table(ta), SettingView::Table(tb)) => {
            if depth > 0 {
                SettingView::Table(
                    Map::new(
                        |k: Seq<char>| ta.contains_key(k) || tb.contains_key(k),
                        |k: Seq<char>|
                            if ta.contains_key(k) && tb.contains_key(k) {
                                merged(ta[k], tb[k], (depth - 1) as nat)
                            } else if tb.contains_key(k) {
                                tb[k]
                            } else {
                                ta[k]
                            },
                    ),
                )
            } else {
                b
            }
        },
        _ => b,
    }
}

/// No two entries share a key.
pub open spec fn unique_keys(s: Seq<(String, Setting)>) -> bool {
    forall|i: int, j: int|
        0 <= i < j < s.len() ==> #[trigger] s[i].0@ != #[trigger] s[j].0@
}

proof fn lemma_entries_dom(s: Seq<(String, Setting)>, k: Seq<char>)
    ensures
        entries_view(s).contains_key(k) <==> exists|i: int| 0 <= i < s.len() && #[trigger] s[i].0@ == k,
    decreases s.len(),
{
    if s.len() > 0 {
        lemma_entries_dom(s.drop_last(), k);
        if entries_view(s.drop_last()).contains_key(k) {
            let i = choose|i: int| 0 <= i < s.drop_last().len() && #[trigger] s.drop_last()[i].0@ == k;
            assert(s[i].0@ == k);
        }
        if exists|i: int| 0 <= i < s.len() && #[trigger] s[i].0@ == k {
            let i = choose|i: int| 0 <= i < s.len() && #[trigger] s[i].0@ == k;
            if i < s.len() - 1 {
                assert(s.drop_last()[i].0@ == k);
            }
        }
    }
}

pub(crate) proof fn lemma_entries_at(s: Seq<(String, Setting)>, p: int)
    requires
        unique_keys(s),
        0 <= p < s.len(),
    ensures
        entries_view(s).contains_key(s[p].0@),
        entries_view(s)[s[p].0@] == setting_view(s[p].1),
    decreases s.len(),
{
    if p < s.len() - 1 {
        lemma_entries_at(s.drop_last(), p);
        assert(s.drop_last()[p] == s[p]);
        assert(s[p].0@ != s.last().0@);
    }
}

proof fn lemma_entries_remove(s: Seq<(String, Setting)>, p: int)
    requires
        unique_keys(s),
        0 <= p < s.len(),
    ensures
        entries_view(s.remove(p)) == entries_view(s).remove(s[p].0@),
        unique_keys(s.remove(p)),
    decreases s.len(),
{
    let k = s[p].0@;
    let d = s.drop_last();
    if p == s.len() - 1 {
        assert(s.remove(p) =~= d);
        lemma_entries_dom(d, k);
        assert(!entries_view(d).contains_key(k)) by {
            if entries_view(d).contains_key(k) {
                let i = choose|i: int| 0 <= i < d.len() && #[trigger] d[i].0@ == k;
                assert(s[i].0@ == s[p].0@);
            }
        }
        assert(entries_view(s.remove(p)) =~= entries_view(s).remove(k));
    } else {
        assert(unique_keys(d));
        lemma_entries_remove(d, p);
        assert(s.remove(p) =~= d.remove(p).push(s.last()));
        assert(s.remove(p).drop_last() =~= d.remove(p));
        assert(s.last().0@ != k);
        assert(entries_view(s.remove(p)) =~= entries_view(s).remove(k));
        assert forall|i: int, j: int|
            0 <= i < j < s.remove(p).len() implies #[trigger] s.remove(p)[i].0@
            != #[trigger] s.remove(p)[j].0@ by {
            let i0 = if i < p { i } else { i + 1 };
            let j0 = if j < p { j } else { j + 1 };
            assert(s.remove(p)[i] == s[i0]);
            assert(s.remove(p)[j] == s[j0]);
        }
    }
}

proof fn lemma_entries_push(s: Seq<(String, Setting)>, e: (String, Setting))
    ensures
        entries_view(s.push(e)) == entries_view(s).insert(e.0@, setting_view(e.1)),
{
    assert(s.push(e).drop_last() =~= s);
}

/// The position of the last entry with key `k`.
pub(crate) fn find_key(entries: &Vec<(String, Setting)>, k: &String) -> (r: Option<usize>)
    ensures
        r matches Some(p) ==> p < entries@.len() && entries@[p as int].0@ == k@,
        r is None ==> forall|i: int| 0 <= i < entries@.len() ==> #[trigger] entries@[i].0@ != k@,
{
    let mut i: usize = entries.len();
    while i > 0
        invariant
            i <= entries@.len(),
            forall|m: int| i <= m < entries@.len() ==> #[trigger] entries@[m].0@ != k@,
        decreases i,
    {
        if entries[i - 1].0 == *k {
            return Some(i - 1);
        }
        i = i - 1;
    }
    None
}

/// Puts `e` into `entries`, in place of an entry with the same key.
fn put_entry(entries: &mut Vec<(String, Setting)>, e: (String, Setting))
    requires
        unique_keys(old(entries)@),
    ensures
        unique_keys(final(entries)@),
        entries_view(final(entries)@) == entries_view(old(entries)@).insert(e.0@, setting_view(e.1)),
{
    match find_key(entries, &e.0) {
        Some(p) => {
            proof {
                lemma_entries_remove(entries@, p as int);
            }
            entries.remove(p);
        },
        None => {
            proof {
                lemma_entries_dom(entries@, e.0@);
                if entries_view(entries@).contains_key(e.0@) {
                    let i = choose|i: int| 0 <= i < entries@.len() && #[trigger] entries@[i].0@ == e.0@;
                }
                assert(entries_view(entries@).remove(e.0@) =~= entries_view(entries@));
            }
        },
    }
    let ghost before = entries@;
    proof {
        lemma_entries_push(before, e);
        lemma_entries_dom(before, e.0@);
        assert(!entries_view(before).contains_key(e.0@));
    }
    entries.push(e);
    proof {
        assert(entries_view(entries@) =~= entries_view(old(entries)@).insert(e.0@, setting_view(e.1)));
        assert forall|i: int, j: int|
            0 <= i < j < entries@.len() implies #[trigger] entries@[i].0@ != #[trigger] entries@[j].0@ by {
            if j == entries@.len() - 1 {
                assert(entries@[i] == before[i]);
            }
        }
    }
}

/// The same table with one entry per key.
pub(crate) fn dedup_entries(entries: Vec<(String, Setting)>) -> (r: Vec<(String, Setting)>)
    ensures
        unique_keys(r@),
        entries_view(r@) == entries_view(entries@),
{
    let mut rest = entries;
    let ghost all = rest@;
    let mut out: Vec<(String, Setting)> = Vec::new();
    let n = rest.len();
    while rest.len() > 0
        invariant
            n == all.len(),
            rest@.len() <= n,
            rest@ == all.subrange(n - rest@.len(), n as int),
            unique_keys(out@),
            entries_view(out@) == entries_view(all.subrange(0, n - rest@.len())),
        decreases rest@.len(),
    {
        let ghost j = n - rest@.len();
        let e = rest.remove(0);
        proof {
            assert(all.subrange(0, j + 1).drop_last() =~= all.subrange(0, j));
            assert(rest@ =~= all.subrange(j + 1, n as int));
        }
        put_entry(&mut out, e);
    }
    proof {
        assert(all.subrange(0, n as int) =~= all);
    }
    out
}

/// Merges the tables of `left` and `right` key by key, at a remaining depth of `depth`.
fn merge_tables(left: Vec<(String, Setting)>, right: Vec<(String, Setting)>, depth: usize) -> (r: Vec<
    (String, Setting),
>)
    requires
        depth > 0,
    ensures
        SettingView::Table(entries_view(r@)) == merged(
            SettingView::Table(entries_view(left@)),
            SettingView::Table(entries_view(right@)),
            depth as nat,
        ),
    decreases depth, 0nat,
{
    let ghost ta = entries_view(left@);
    let ghost tb = entries_view(right@);
    let mut out = dedup_entries(left);
    let mut rest = dedup_entries(right);
    let ghost all = rest@;
    let n = rest.len();
    while rest.len() > 0
        invariant
            depth > 0,
            n == all.len(),
            unique_keys(all),
            entries_view(all) == tb,
            rest@.len() <= n,
            rest@ == all.subrange(n - rest@.len(), n as int),
            unique_keys(out@),
            entries_view(out@) == Map::new(
                |k: Seq<char>|
                    ta.contains_key(k) || entries_view(all.subrange(0, n - rest@.len())).contains_key(k),
                |k: Seq<char>|
                    if ta.contains_key(k) && entries_view(all.subrange(0, n - rest@.len())).contains_key(k) {
                        merged(ta[k], entries_view(all.subrange(0, n - rest@.len()))[k], (depth - 1) as nat)
                    } else if entries_view(all.subrange(0, n - rest@.len())).contains_key(k) {
                        entries_view(all.subrange(0, n - rest@.len()))[k]
                    } else {
                        ta[k]
                    },
            ),
        decreases rest@.len(),
    {
        let ghost j = n - rest@.len();
        let ghost done = all.subrange(0, j);
        let ghost done2 = all.subrange(0, j + 1);
        let (key, rv) = rest.remove(0);
        proof {
            assert(done2.drop_last() =~= done);
            assert(rest@ =~= all.subrange(j + 1, n as int));
            lemma_entries_dom(done, key@);
            assert(!entries_view(done).contains_key(key@)) by {
                if entries_view(done).contains_key(key@) {
                    let i = choose|i: int| 0 <= i < done.len() && #[trigger] done[i].0@ == key@;
                    assert(all[i].0@ == all[j].0@);
                }
            }
        }
        match find_key(&out, &key) {
            Some(p) => {
                proof {
                    lemma_entries_at(out@, p as int);
                    lemma_entries_remove(out@, p as int);
                }
                let (_, lv) = out.remove(p);
                let m = merge_toml_values(lv, rv, depth - 1);
                put_entry(&mut out, (key, m));
            },
            None => {
                proof {
                    lemma_entries_dom(out@, key@);
                    if entries_view(out@).contains_key(key@) {
                        let i = choose|i: int| 0 <= i < out@.len() && #[trigger] out@[i].0@ == key@;
                    }
                }
                put_entry(&mut out, (key, rv));
            },
        }
        proof {
            let ev2 = entries_view(done2);
            assert(entries_view(out@) =~= Map::new(
                |k: Seq<char>| ta.contains_key(k) || ev2.contains_key(k),
                |k: Seq<char>|
                    if ta.contains_key(k) && ev2.contains_key(k) {
                        merged(ta[k], ev2[k], (depth - 1) as nat)
                    } else if ev2.contains_key(k) {
                        ev2[k]
                    } else {
                        ta[k]
                    },
            ));
        }
    }
    proof {
        assert(all.subrange(0, n as int) =~= all);
        let mm = merged(SettingView::Table(ta), SettingView::Table(tb), depth as nat)->Table_0;
        assert(entries_view(out@) =~= mm);
        assert(entries_view(out@) =~= Map::new(
            |k: Seq<char>| ta.contains_key(k) || tb.contains_key(k),
            |k: Seq<char>|
                if ta.contains_key(k) && tb.contains_key(k) {
                    merged(ta[k], tb[k], (depth - 1) as nat)
                } else if tb.contains_key(k) {
                    tb[k]
                } else {
                    ta[k]
                },
        ));
    }
    out
}

/// Merges `right` into `left`: tables key by key down to `merge_depth` levels; below that, and
/// wherever either side is not a table, `right` replaces `left`.
pub fn merge_toml_values(left: Setting, right: Setting, merge_depth: usize) -> (r: Setting)
    ensures
        r@ == merged(left@, right@, merge_depth as nat),
    decreases merge_depth, 1nat,
{
    if merge_depth == 0 {
        return right;
    }
    match left {
        Setting::Table(l) => match right {
            Setting::Table(r) => Setting::Table(merge_tables(l, r, merge_depth)),
            other => other,
        },
        _ => right,
    }
}

/// Once the depth budget is spent, the overriding tree replaces the other one whole, however
/// deep the two differ.
pub proof fn lemma_merge_depth_exhausted(a: SettingView, b: SettingView)
    ensures
        merged(a, b, 0) == b,
{
}

/// While the depth budget lasts, a key that both tables hold is merged one level down with one
/// unit of budget less; so at the fixed depth of three, tables four levels down are replaced.
pub proof fn lemma_merge_descends(
    ta: Map<Seq<char>, SettingView>,
    tb: Map<Seq<char>, SettingView>,
    depth: nat,
    k: Seq<char>,
)
    requires
        depth > 0,
        ta.contains_key(k),
        tb.contains_key(k),
    ensures
        merged(SettingView::Table(ta), SettingView::Table(tb), depth) matches SettingView::Table(m)
            && m.contains_key(k) && m[k] == merged(ta[k], tb[k], (depth - 1) as nat),
{
}

/// A tree merged with itself, at any depth, is unchanged.
pub proof fn lemma_merge_self(v: SettingView, depth: nat)
    ensures
        merged(v, v, depth) == v,
    decreases depth,
{
    if let SettingView::Table(t) = v {
        if depth > 0 {
            assert forall|k: Seq<char>| t.contains_key(k) implies merged(t[k], t[k], (depth - 1) as nat)
                == t[k] by {
                lemma_merge_self(t[k], (depth - 1) as nat);
            }
            let m = Map::new(
                |k: Seq<char>| t.contains_key(k) || t.contains_key(k),
                |k: Seq<char>|
                    if t.contains_key(k) && t.contains_key(k) {
                        merged(t[k], t[k], (depth - 1) as nat)
                    } else if t.contains_key(k) {
                        t[k]
                    } else {
                        t[k]
                    },
            );
            let r = merged(v, v, depth);
            assert(r->Table_0 =~= t);
        }
    }
}

/// The number of nodes of a tree.
pub open spec fn setting_size(v: Setting) -> nat
    decreases v,
{
    match v {
        Setting::Array(items) => 1 + items_size(items@),
        Setting::Table(entries) => 1 + entries_size(entries@),
        _ => 1,
    }
}

pub open spec fn items_size(s: Seq<Setting>) -> nat
    decreases s,
{
    if s.len() == 0 {
        0
    } else {
        items_size(s.drop_last()) + setting_size(s.last())
    }
}

pub open spec fn entries_size(s: Seq<(String, Setting)>) -> nat
    decreases s,
{
    if s.len() == 0 {
        0
    } else {
        entries_size(s.drop_last()) + setting_size(s.last().1)
    }
}

proof fn lemma_items_size(s: Seq<Setting>, i: int)
    requires
        0 <= i < s.len(),
    ensures
        setting_size(s[i]) <= items_size(s),
    decreases s.len(),
{
    if i < s.len() - 1 {
        lemma_items_size(s.drop_last(), i);
    }
}

proof fn lemma_entries_size(s: Seq<(String, Setting)>, i: int)
    requires
        0 <= i < s.len(),
    ensures
        setting_size(s[i].1) <= entries_size(s),
    decreases s.len(),
{
    if i < s.len() - 1 {
        lemma_entries_size(s.drop_last(), i);
    }
}

impl Setting {
    /// A copy of this tree.
    pub fn copy(&self) -> (r: Setting)
        ensures
            r@ == self@,
        decreases setting_size(*self),
    {
        match self {
            Setting::Str(s) => Setting::Str(s.clone()),
            Setting::Int(i) => Setting::Int(*i),
            Setting::Bool(b) => Setting::Bool(*b),
            Setting::Array(items) => {
                let mut out: Vec<Setting> = Vec::new();
                let mut i: usize = 0;
                while i < items.len()
                    invariant
                        i <= items@.len(),
                        *self == Setting::Array(*items),
                        items_view(out@) == items_view(items@.subrange(0, i as int)),
                    decreases items@.len() - i,
                {
                    proof {
                        lemma_items_size(items@, i as int);
                    }
                    let c = items[i].copy();
                    proof {
                        assert(out@.push(c).drop_last() =~= out@);
                        assert(items@.subrange(0, i + 1).drop_last() =~= items@.subrange(0, i as int));
                    }
                    out.push(c);
                    i = i + 1;
                }
                proof {
                    assert(items@.subrange(0, i as int) =~= items@);
                }
                Setting::Array(out)
            },
            Setting::Table(entries) => {
                let mut out: Vec<(String, Setting)> = Vec::new();
                let mut i: usize = 0;
                while i < entries.len()
                    invariant
                        i <= entries@.len(),
                        *self == Setting::Table(*entries),
                        entries_view(out@) == entries_view(entries@.subrange(0, i as int)),
                    decreases entries@.len() - i,
                {
                    proof {
                        lemma_entries_size(entries@, i as int);
                    }
                    let e = (entries[i].0.clone(), entries[i].1.copy());
                    proof {
                        assert(out@.push(e).drop_last() =~= out@);
                        assert(entries@.subrange(0, i + 1).drop_last() =~= entries@.subrange(0, i as int));
                    }
                    out.push(e);
                    i = i + 1;
                }
                proof {
                    assert(entries@.subrange(0, i as int) =~= entries@);
                }
                Setting::Table(out)
            },
            Setting::Other(t) => Setting::Other(t.clone()),
        }
    }
}

/// The value of `key` in a table whose keys are unique.
pub(crate) fn get_entry<'a>(entries: &'a Vec<(String, Setting)>, key: &str) -> (r: Option<&'a Setting>)
    requires
        unique_keys(entries@),
    ensures
        r matches Some(v) ==> entries_view(entries@).contains_key(key@) && v@ == entries_view(
            entries@,
        )[key@],
        r is None ==> !entries_view(entries@).contains_key(key@),
{
    let k = key.to_owned();
    match find_key(entries, &k) {
        Some(p) => {
            proof {
                lemma_entries_at(entries@, p as int);
            }
            Some(&entries[p].1)
        },
        None => {
            proof {
                lemma_entries_dom(entries@, key@);
                if entries_view(entries@).contains_key(key@) {
                    let i = choose|i: int| 0 <= i < entries@.len() && #[trigger] entries@[i].0@ == key@;
                }
            }
            None
        },
    }
}

/// Whether every key of a table is one of `allowed`.
pub(crate) fn keys_within(entries: &Vec<(String, Setting)>, allowed: &Vec<String>) -> (r: Option<String>)
    ensures
        r is None <==> entries_view(entries@).dom().subset_of(
            Set::new(|k: Seq<char>| exists|j: int| 0 <= j < allowed@.len() && #[trigger] allowed@[j]@ == k),
        ),
{
    let ghost ok = Set::new(|k: Seq<char>| exists|j: int| 0 <= j < allowed@.len() && #[trigger] allowed@[j]@ == k);
    let mut i: usize = 0;
    while i < entries.len()
        invariant
            i <= entries@.len(),
            ok == Set::new(|k: Seq<char>| exists|j: int| 0 <= j < allowed@.len() && #[trigger] allowed@[j]@ == k),
            forall|m: int| 0 <= m < i ==> ok.contains(#[trigger] entries@[m].0@),
        decreases entries@.len() - i,
    {
        let key = &entries[i].0;
        let mut found = false;
        let mut j: usize = 0;
        while j < allowed.len()
            invariant
                j <= allowed@.len(),
                ok == Set::new(|k: Seq<char>| exists|j: int| 0 <= j < allowed@.len() && #[trigger] allowed@[j]@ == k),
                found ==> ok.contains(key@),
                !found ==> forall|m: int| 0 <= m < j ==> #[trigger] allowed@[m]@ != key@,
            decreases allowed@.len() - j,
        {
            if allowed[j] == *key {
                found = true;
                proof {
                    assert(allowed@[j as int]@ == key@);
                }
            }
            j = j + 1;
        }
        if !found {
            proof {
                assert(!ok.contains(key@)) by {
                    if ok.contains(key@) {
                        let j0 = choose|j: int| 0 <= j < allowed@.len() && #[trigger] allowed@[j]@ == key@;
                    }
                }
                lemma_entries_dom(entries@, key@);
                assert(entries_view(entries@).contains_key(key@));
            }
            return Some(key.clone());
        }
        i = i + 1;
    }
    proof {
        assert forall|k: Seq<char>| entries_view(entries@).contains_key(k) implies ok.contains(k) by {
            lemma_entries_dom(entries@, k);
            let m = choose|m: int| 0 <= m < entries@.len() && #[trigger] entries@[m].0@ == k;
            assert(ok.contains(entries@[m].0@));
        }
    }
    None
}

/// A copy of a table's entries.
pub(crate) fn copy_entries(entries: &Vec<(String, Setting)>) -> (r: Vec<(String, Setting)>)
    ensures
        entries_view(r@) == entries_view(entries@),
{
    let mut out: Vec<(String, Setting)> = Vec::new();
    let mut i: usize = 0;
    while i < entries.len()
        invariant
            i <= entries@.len(),
            entries_view(out@) == entries_view(entries@.subrange(0, i as int)),
        decreases entries@.len() - i,
    {
        let e = (entries[i].0.clone(), entries[i].1.copy());
        proof {
            assert(out@.push(e).drop_last() =~= out@);
            assert(entries@.subrange(0, i + 1).drop_last() =~= entries@.subrange(0, i as int));
        }
        out.push(e);
        i = i + 1;
    }
    proof {
        assert(entries@.subrange(0, i as int) =~= entries@);
    }
    out
}

pub(crate) proof fn lemma_items_view_len(s: Seq<Setting>)
    ensures
        items_view(s).len() == s.len(),
    decreases s.len(),
{
    if s.len() > 0 {
        lemma_items_view_len(s.drop_last());
    }
}

pub(crate) proof fn lemma_items_view_at(s: Seq<Setting>, i: int)
    requires
        0 <= i < s.len(),
    ensures
        items_view(s)[i] == setting_view(s[i]),
        items_view(s).len() == s.len(),
    decreases s.len(),
{
    lemma_items_view_len(s);
    if i < s.len() - 1 {
        lemma_items_view_at(s.drop_last(), i);
    }
}

} // verus!

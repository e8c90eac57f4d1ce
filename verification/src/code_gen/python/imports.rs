//! The imports that a generated Python file needs.
use vstd::prelude::*;
use vstd::string::*;

use crate::code_gen::python::code::{cat, cat3};
use crate::path::PathBuf;
use crate::text::{join_seq, join_strings, views};

verus! {

broadcast use vstd::seq_lib::group_seq_properties;

/// Whether `a` comes before `b` in the lexicographic order of their
/// characters' code points.
pub open spec fn seq_lt(a: Seq<char>, b: Seq<char>) -> bool
    decreases a.len(),
{
    if a.len() == 0 {
        b.len() > 0
    } else if b.len() == 0 {
        false
    } else if a[0] != b[0] {
        a[0] < b[0]
    } else {
        seq_lt(a.drop_first(), b.drop_first())
    }
}

/// The lexicographic order is transitive.
pub proof fn lemma_seq_lt_transitive(a: Seq<char>, b: Seq<char>, c: Seq<char>)
    requires
        seq_lt(a, b),
        seq_lt(b, c),
    ensures
        seq_lt(a, c),
    decreases a.len(),
{
    if a.len() > 0 && b.len() > 0 && c.len() > 0 && a[0] == b[0] && b[0] == c[0] {
        lemma_seq_lt_transitive(a.drop_first(), b.drop_first(), c.drop_first());
    }
}

/// Of two different strings, one comes before the other.
pub proof fn lemma_seq_lt_total(a: Seq<char>, b: Seq<char>)
    requires
        a != b,
    ensures
        seq_lt(a, b) || seq_lt(b, a),
    decreases a.len(),
{
    if a.len() == 0 && b.len() == 0 {
        assert(a =~= b);
    } else if a.len() > 0 && b.len() > 0 {
        if a[0] == b[0] {
            if a.drop_first() == b.drop_first() {
                assert(a =~= seq![a[0]] + a.drop_first());
                assert(b =~= seq![b[0]] + b.drop_first());
            }
            lemma_seq_lt_total(a.drop_first(), b.drop_first());
        } else {
            assert(a[0] < b[0] || b[0] < a[0]);
        }
    }
}

/// No string comes before itself.
pub proof fn lemma_seq_lt_irreflexive(a: Seq<char>)
    ensures
        !seq_lt(a, a),
    decreases a.len(),
{
    if a.len() > 0 {
        lemma_seq_lt_irreflexive(a.drop_first());
    }
}

/// Whether `a` comes before `b`, compared character by character.
pub fn str_lt(a: &str, b: &str) -> (r: bool)
    ensures
        r == seq_lt(a@, b@),
{
    let n = a.unicode_len();
    let m = b.unicode_len();
    let mut i: usize = 0;
    while i < n && i < m
        invariant
            n == a@.len(),
            m == b@.len(),
            i <= n,
            i <= m,
            a@.take(i as int) == b@.take(i as int),
            seq_lt(a@, b@) == seq_lt(a@.skip(i as int), b@.skip(i as int)),
        decreases n - i,
    {
        let x = a.get_char(i);
        let y = b.get_char(i);
        if x != y {
            assert(a@.skip(i as int)[0] == x);
            assert(b@.skip(i as int)[0] == y);
            return x < y;
        }
        assert(a@.skip(i as int).drop_first() =~= a@.skip(i + 1));
        assert(b@.skip(i as int).drop_first() =~= b@.skip(i + 1));
        assert(a@.take(i + 1) =~= a@.take(i as int).push(x));
        assert(b@.take(i + 1) =~= b@.take(i as int).push(y));
        i = i + 1;
    }
    i < m
}

/// What is imported from a package.
pub enum ImportItem {
    /// Everything: `*`.
    All,
    /// One item by its name.
    Single(String),
    /// One item under another name.
    Aliased { item_name: String, alias: String },
}

/// An imported item as the registry records it: `None` for everything,
/// else the text of the item.
pub open spec fn item_model(item: ImportItem) -> Option<Seq<char>> {
    match item {
        ImportItem::All => None,
        ImportItem::Single(name) => Some(name@),
        ImportItem::Aliased { item_name, alias } => Some(item_name@ + " as "@ + alias@),
    }
}

/// The package that something is imported from.
pub enum Package {
    /// A package outside the generated one, by its name.
    Extern(String),
    /// A module of the generated package, by its path below the package.
    Intern(PathBuf),
}

/// An entry of the registry: the package, whether everything is imported
/// from it, and the single items in the order they were first imported.
pub type Entry = (Seq<char>, bool, Seq<Seq<char>>);

/// What is imported from a package after `item` is imported too, where
/// `old` is what was imported from it before.
pub open spec fn merged(old: Option<(bool, Seq<Seq<char>>)>, item: Option<Seq<char>>) -> (
    bool,
    Seq<Seq<char>>,
) {
    let (all, items) = match old {
        Some(m) => m,
        None => (false, Seq::empty()),
    };
    match item {
        None => (true, items),
        Some(t) => if items.contains(t) {
            (all, items)
        } else {
            (all, items.push(t))
        },
    }
}

/// The entry of `package` after `item` is imported, where `old` is what was
/// imported from it before.
pub open spec fn merged_entry(
    package: Seq<char>,
    old: Option<(bool, Seq<Seq<char>>)>,
    item: Option<Seq<char>>,
) -> Entry {
    (package, merged(old, item).0, merged(old, item).1)
}

/// The entries, in increasing order of their packages, after `item` is
/// imported from `package`.
pub open spec fn pushed(s: Seq<Entry>, package: Seq<char>, item: Option<Seq<char>>) -> Seq<Entry>
    decreases s.len(),
{
    if s.len() == 0 {
        seq![merged_entry(package, None, item)]
    } else if s[0].0 == package {
        s.update(0, merged_entry(package, Some((s[0].1, s[0].2)), item))
    } else if seq_lt(s[0].0, package) {
        seq![s[0]] + pushed(s.drop_first(), package, item)
    } else {
        s.insert(0, merged_entry(package, None, item))
    }
}

/// The entries after each of the imports, in order.
pub open spec fn pushed_all(s: Seq<Entry>, imports: Seq<(Seq<char>, Option<Seq<char>>)>) -> Seq<
    Entry,
>
    decreases imports.len(),
{
    if imports.len() == 0 {
        s
    } else {
        pushed_all(pushed(s, imports[0].0, imports[0].1), imports.drop_first())
    }
}

/// Importing a sequence of imports and then another is importing the two
/// one after the other.
pub proof fn lemma_pushed_all_concat(
    s: Seq<Entry>,
    a: Seq<(Seq<char>, Option<Seq<char>>)>,
    b: Seq<(Seq<char>, Option<Seq<char>>)>,
)
    ensures
        pushed_all(s, a + b) == pushed_all(pushed_all(s, a), b),
    decreases a.len(),
{
    if a.len() == 0 {
        assert(a + b =~= b);
    } else {
        assert((a + b).drop_first() =~= a.drop_first() + b);
        assert((a + b)[0] == a[0]);
        lemma_pushed_all_concat(pushed(s, a[0].0, a[0].1), a.drop_first(), b);
    }
}

/// Importing one import is pushing it.
pub proof fn lemma_pushed_all_one(s: Seq<Entry>, x: (Seq<char>, Option<Seq<char>>))
    ensures
        pushed_all(s, seq![x]) == pushed(s, x.0, x.1),
{
    let rest = seq![x].drop_first();
    assert(rest =~= Seq::<(Seq<char>, Option<Seq<char>>)>::empty());
    assert(pushed_all(pushed(s, x.0, x.1), rest) == pushed(s, x.0, x.1));
    assert(seq![x][0] == x);
}

/// What the entries import from `package`.
pub open spec fn lookup(entries: Seq<Entry>, package: Seq<char>) -> Option<(bool, Seq<Seq<char>>)>
    decreases entries.len(),
{
    if entries.len() == 0 {
        None
    } else if entries[0].0 == package {
        Some((entries[0].1, entries[0].2))
    } else {
        lookup(entries.drop_first(), package)
    }
}

/// Whether the packages of the entries are in strictly increasing order.
pub open spec fn sorted_by_package(entries: Seq<Entry>) -> bool {
    forall|i: int, j: int|
        0 <= i < j < entries.len() ==> seq_lt(#[trigger] entries[i].0, #[trigger] entries[j].0)
}

/// The line that imports an entry.
pub open spec fn import_line(e: Entry) -> Seq<char> {
    "from "@ + e.0 + " import "@ + (if e.1 {
        "*"@
    } else {
        join_seq(e.2, ", "@)
    })
}

/// Importing keeps the entries in the order of their packages, and then
/// what is imported from the package is what was imported before merged
/// with the item, and what is imported from each other package is as it
/// was.
pub proof fn law_push_lookup(s: Seq<Entry>, package: Seq<char>, item: Option<Seq<char>>)
    requires
        sorted_by_package(s),
    ensures
        sorted_by_package(pushed(s, package, item)),
        lookup(pushed(s, package, item), package) == Some(merged(lookup(s, package), item)),
        forall|p: Seq<char>|
            p != package ==> #[trigger] lookup(pushed(s, package, item), p) == lookup(s, p),
    decreases s.len(),
{
    let t = pushed(s, package, item);
    if s.len() == 0 {
        assert(lookup(s, package) == None::<(bool, Seq<Seq<char>>)>);
        assert forall|p: Seq<char>| p != package implies #[trigger] lookup(t, p) == lookup(s, p) by {
            assert(t.drop_first().len() == 0);
        }
    } else if s[0].0 == package {
        assert(t.drop_first() =~= s.drop_first());
        assert(sorted_by_package(t));
    } else if seq_lt(s[0].0, package) {
        let r = s.drop_first();
        assert(sorted_by_package(r));
        law_push_lookup(r, package, item);
        assert(t.drop_first() =~= pushed(r, package, item));
        assert forall|p: Seq<char>| p != package implies #[trigger] lookup(t, p) == lookup(s, p) by {
            if p != s[0].0 {
                assert(lookup(t, p) == lookup(pushed(r, package, item), p));
            }
        }
        assert forall|i: int, j: int| 0 <= i < j < t.len() implies seq_lt(
            #[trigger] t[i].0,
            #[trigger] t[j].0,
        ) by {
            if i == 0 {
                lemma_pushed_keys(r, package, item, j - 1);
                if t[j].0 != package {
                    assert(seq_lt(s[0].0, t[j].0));
                }
            }
        }
    } else {
        lemma_seq_lt_total(s[0].0, package);
        assert(t.drop_first() =~= s);
        assert forall|j: int| 0 <= j < s.len() implies seq_lt(package, #[trigger] s[j].0) by {
            if j > 0 {
                lemma_seq_lt_transitive(package, s[0].0, s[j].0);
            }
        }
        assert forall|j: int| 0 <= j < s.len() implies #[trigger] s[j].0 != package by {
            lemma_seq_lt_irreflexive(package);
        }
        lemma_lookup_none(s, package);
        assert forall|i: int, j: int| 0 <= i < j < t.len() implies seq_lt(
            #[trigger] t[i].0,
            #[trigger] t[j].0,
        ) by {
            if i > 0 {
                assert(t[i] == s[i - 1] && t[j] == s[j - 1]);
            }
        }
    }
}

/// What is imported from a package does not change when the same item is
/// imported again.
pub proof fn lemma_merged_again(old: Option<(bool, Seq<Seq<char>>)>, item: Option<Seq<char>>)
    ensures
        merged(Some(merged(old, item)), item) == merged(old, item),
{
    let m = merged(old, item);
    match item {
        None => {},
        Some(t) => {
            assert(m.1.contains(t)) by {
                let (all, items) = match old {
                    Some(x) => x,
                    None => (false, Seq::empty()),
                };
                if !items.contains(t) {
                    assert(items.push(t)[items.len() as int] == t);
                }
            }
        },
    }
}

/// Importing an item a second time changes nothing.
pub proof fn law_push_idempotent(s: Seq<Entry>, package: Seq<char>, item: Option<Seq<char>>)
    ensures
        pushed(pushed(s, package, item), package, item) == pushed(s, package, item),
    decreases s.len(),
{
    let t = pushed(s, package, item);
    if s.len() == 0 {
        lemma_merged_again(None, item);
    } else if s[0].0 == package {
        lemma_merged_again(Some((s[0].1, s[0].2)), item);
        assert(pushed(t, package, item) =~= t);
    } else if seq_lt(s[0].0, package) {
        law_push_idempotent(s.drop_first(), package, item);
        assert(t.drop_first() =~= pushed(s.drop_first(), package, item));
        assert(pushed(t, package, item) =~= seq![s[0]] + pushed(t.drop_first(), package, item));
    } else {
        lemma_merged_again(None, item);
        assert(pushed(t, package, item) =~= t);
    }
}

/// Each package of the entries after an import is `package` or one of the
/// packages before.
proof fn lemma_pushed_keys(s: Seq<Entry>, package: Seq<char>, item: Option<Seq<char>>, j: int)
    requires
        0 <= j < pushed(s, package, item).len(),
    ensures
        pushed(s, package, item)[j].0 == package || exists|i: int|
            0 <= i < s.len() && #[trigger] s[i].0 == pushed(s, package, item)[j].0,
    decreases s.len(),
{
    let t = pushed(s, package, item);
    if s.len() == 0 {
    } else if s[0].0 == package {
        if j > 0 {
            assert(s[j].0 == t[j].0);
        }
    } else if seq_lt(s[0].0, package) {
        if j == 0 {
            assert(s[0].0 == t[0].0);
        } else {
            lemma_pushed_keys(s.drop_first(), package, item, j - 1);
            if t[j].0 != package {
                let i = choose|i: int|
                    0 <= i < s.drop_first().len() && #[trigger] s.drop_first()[i].0 == t[j].0;
                assert(s[i + 1].0 == t[j].0);
            }
        }
    } else {
        if j > 0 {
            assert(s[j - 1].0 == t[j].0);
        }
    }
}

/// The imports of a generated file, by package in the order of the
/// packages' names.
pub struct ImportRegistry {
    package_name: String,
    entries: Vec<ImportEntry>,
}

/// What is imported from one package.
struct ImportEntry {
    package: String,
    all: bool,
    items: Vec<String>,
}

/// The model of an entry.
spec fn entry_model(e: ImportEntry) -> Entry {
    (e.package@, e.all, views(e.items@))
}

impl ImportRegistry {
    /// The entries, by package in increasing order.
    pub closed spec fn entries(&self) -> Seq<Entry> {
        self.entries@.map_values(|e: ImportEntry| entry_model(e))
    }

    /// The name of the generated package, the root of its own modules.
    pub closed spec fn package_name(&self) -> Seq<char> {
        self.package_name@
    }

    /// The registry keeps its entries in the order of their packages.
    #[verifier::type_invariant]
    closed spec fn sorted(&self) -> bool {
        sorted_by_package(self.entries())
    }

    /// An empty registry for a file of the package `package_name`.
    pub fn new(package_name: String) -> (r: Self)
        ensures
            r.entries() == Seq::<Entry>::empty(),
            r.package_name() == package_name@,
    {
        let r = ImportRegistry { package_name, entries: Vec::new() };
        assert(r.entries() =~= Seq::<Entry>::empty());
        r
    }

    /// The name of a package as it stands in an import: an outside one by
    /// its name, one of the generated package by the package's name and
    /// the parts of its path, joined by `.`.
    pub open spec fn package_text(&self, package: Package) -> Seq<char> {
        match package {
            Package::Extern(name) => name@,
            Package::Intern(path) => join_seq(seq![self.package_name()] + path@, "."@),
        }
    }

    /// Imports `item` from `package`.
    pub fn push(&mut self, package: Package, item: ImportItem)
        ensures
            final(self).package_name() == old(self).package_name(),
            final(self).entries() == pushed(
                old(self).entries(),
                old(self).package_text(package),
                item_model(item),
            ),
    {
        proof {
            use_type_invariant(&*self);
        }
        let ghost text = self.package_text(package);
        let pkg: String = match package {
            Package::Extern(name) => name,
            Package::Intern(path) => {
                let mut parts: Vec<String> = Vec::new();
                parts.push(self.package_name.clone());
                let n = path.parts().len();
                let mut i: usize = 0;
                while i < n
                    invariant
                        n == path@.len(),
                        i <= n,
                        views(parts@) == seq![self.package_name@] + path@.take(i as int),
                    decreases n - i,
                {
                    let ghost before = parts@;
                    parts.push(path.parts()[i].clone());
                    assert(views(parts@) =~= views(before).push(path@[i as int]));
                    assert(path@.take(i + 1) =~= path@.take(i as int).push(path@[i as int]));
                    i = i + 1;
                }
                assert(path@.take(n as int) =~= path@);
                join_strings(&parts, ".")
            },
        };
        assert(pkg@ == text);
        let ghost old_entries = self.entries();
        let n = self.entries.len();
        let mut k: usize = 0;
        while k < n
            invariant
                n == self.entries@.len(),
                self.entries() == old_entries,
                pkg@ == text,
                k <= n,
                forall|j: int| 0 <= j < k ==> seq_lt(#[trigger] old_entries[j].0, text),
            ensures
                n == self.entries@.len(),
                self.entries() == old_entries,
                k <= n,
                forall|j: int| 0 <= j < k ==> seq_lt(#[trigger] old_entries[j].0, text),
                k < n ==> !seq_lt(old_entries[k as int].0, text),
            decreases n - k,
        {
            if !str_lt(self.entries[k].package.as_str(), pkg.as_str()) {
                break;
            }
            k = k + 1;
        }
        let found = k < n && !str_lt(pkg.as_str(), self.entries[k].package.as_str());
        proof {
            if k < n {
                if found {
                    if old_entries[k as int].0 != text {
                        lemma_seq_lt_total(old_entries[k as int].0, text);
                    }
                } else {
                    lemma_seq_lt_irreflexive(text);
                }
            }
            lemma_pushed_at(old_entries, k as int, text, item_model(item));
        }
        let mut entries: Vec<ImportEntry> = Vec::new();
        std::mem::swap(&mut entries, &mut self.entries);
        assert(entries@.map_values(|e: ImportEntry| entry_model(e)) == old_entries);
        if found {
            let entry = entries.remove(k);
            let merged = merge_entry(entry, item);
            entries.insert(k, merged);
            assert(entries@.map_values(|e: ImportEntry| entry_model(e)) =~= old_entries.update(
                k as int,
                entry_model(merged),
            ));
        } else {
            let fresh = new_entry(pkg, item);
            entries.insert(k, fresh);
            assert(entries@.map_values(|e: ImportEntry| entry_model(e)) =~= old_entries.insert(
                k as int,
                entry_model(fresh),
            ));
        }
        proof {
            law_push_lookup(old_entries, text, item_model(item));
        }
        self.entries = entries;
    }

    /// The lines that import the entries, one per package, in the order of
    /// the packages' names.
    pub fn lines(&self) -> (r: Vec<String>)
        ensures
            views(r@) == self.entries().map_values(|e: Entry| import_line(e)),
    {
        let n = self.entries.len();
        let mut r: Vec<String> = Vec::new();
        let mut i: usize = 0;
        while i < n
            invariant
                n == self.entries@.len(),
                i <= n,
                views(r@) == self.entries().take(i as int).map_values(|e: Entry| import_line(e)),
            decreases n - i,
        {
            let e = &self.entries[i];
            let what = if e.all {
                String::from_str("*")
            } else {
                join_strings(&e.items, ", ")
            };
            let line = cat3(cat("from ", e.package.as_str()).as_str(), " import ", what.as_str());
            let ghost before = r@;
            r.push(line);
            assert(views(r@) =~= views(before).push(line@));
            assert(self.entries().take(i + 1) =~= self.entries().take(i as int).push(
                self.entries()[i as int],
            ));
            i = i + 1;
        }
        assert(self.entries().take(n as int) =~= self.entries());
        r
    }
}

/// Where the packages before `k` come before `package` and the one at `k`
/// does not, importing merges into the entry at `k` if it is of
/// `package`, and else puts a new entry there.
proof fn lemma_pushed_at(s: Seq<Entry>, k: int, package: Seq<char>, item: Option<Seq<char>>)
    requires
        0 <= k <= s.len(),
        forall|j: int| 0 <= j < k ==> seq_lt(#[trigger] s[j].0, package),
        k < s.len() ==> !seq_lt(s[k].0, package),
    ensures
        k < s.len() && s[k].0 == package ==> pushed(s, package, item) == s.update(
            k,
            merged_entry(package, Some((s[k].1, s[k].2)), item),
        ),
        !(k < s.len() && s[k].0 == package) ==> pushed(s, package, item) == s.insert(
            k,
            merged_entry(package, None, item),
        ),
    decreases k,
{
    if k > 0 {
        lemma_seq_lt_irreflexive(package);
        assert(s[0].0 != package);
        let r = s.drop_first();
        assert forall|j: int| 0 <= j < k - 1 implies seq_lt(#[trigger] r[j].0, package) by {
            assert(r[j] == s[j + 1]);
        }
        lemma_pushed_at(r, k - 1, package, item);
        if k < s.len() && s[k].0 == package {
            assert(seq![s[0]] + r.update(k - 1, merged_entry(package, Some((s[k].1, s[k].2)), item))
                =~= s.update(k, merged_entry(package, Some((s[k].1, s[k].2)), item)));
        } else {
            assert(seq![s[0]] + r.insert(k - 1, merged_entry(package, None, item)) =~= s.insert(
                k,
                merged_entry(package, None, item),
            ));
        }
    } else {
        if s.len() > 0 && s[0].0 != package {
            assert(s.insert(0, merged_entry(package, None, item)) =~= s.insert(
                0,
                merged_entry(package, None, item),
            ));
        }
    }
}

/// Whether `a` and `b` hold the same characters.
pub fn str_eq(a: &str, b: &str) -> (r: bool)
    ensures
        r == (a@ == b@),
{
    let r = !str_lt(a, b) && !str_lt(b, a);
    proof {
        if a@ == b@ {
            lemma_seq_lt_irreflexive(a@);
        } else {
            lemma_seq_lt_total(a@, b@);
        }
    }
    r
}

/// The text of an imported item.
fn item_string(item: &ImportItem) -> (r: String)
    requires
        item_model(*item) is Some,
    ensures
        Some(r@) == item_model(*item),
{
    match item {
        ImportItem::All => String::new(),
        ImportItem::Single(name) => name.clone(),
        ImportItem::Aliased { item_name, alias } => cat3(item_name.as_str(), " as ", alias.as_str()),
    }
}

/// Whether one of the strings holds the characters of `s`.
fn contains_str(v: &Vec<String>, s: &str) -> (r: bool)
    ensures
        r == views(v@).contains(s@),
{
    let n = v.len();
    let mut i: usize = 0;
    while i < n
        invariant
            n == v@.len(),
            i <= n,
            forall|j: int| 0 <= j < i ==> views(v@)[j] != s@,
        decreases n - i,
    {
        if str_eq(v[i].as_str(), s) {
            assert(views(v@)[i as int] == s@);
            return true;
        }
        i = i + 1;
    }
    false
}

/// The entry of `package` with `item` the first thing imported from it.
fn new_entry(package: String, item: ImportItem) -> (r: ImportEntry)
    ensures
        entry_model(r) == merged_entry(package@, None, item_model(item)),
{
    let mut items: Vec<String> = Vec::new();
    let all = match item {
        ImportItem::All => true,
        _ => {
            items.push(item_string(&item));
            false
        },
    };
    let r = ImportEntry { package, all, items };
    assert(views(r.items@) =~= merged(None, item_model(item)).1);
    r
}

/// The entry after `item` is imported from its package too.
fn merge_entry(entry: ImportEntry, item: ImportItem) -> (r: ImportEntry)
    ensures
        entry_model(r) == merged_entry(
            entry.package@,
            Some((entry.all, views(entry.items@))),
            item_model(item),
        ),
{
    let ImportEntry { package, all, items } = entry;
    match item {
        ImportItem::All => ImportEntry { package, all: true, items },
        _ => {
            let text = item_string(&item);
            if contains_str(&items, text.as_str()) {
                ImportEntry { package, all, items }
            } else {
                let mut items = items;
                let ghost before = items@;
                items.push(text);
                assert(views(items@) =~= views(before).push(text@));
                ImportEntry { package, all, items }
            }
        },
    }
}

/// Where no entry is of `p`, its lookup finds nothing.
proof fn lemma_lookup_none(s: Seq<Entry>, p: Seq<char>)
    requires
        forall|j: int| 0 <= j < s.len() ==> #[trigger] s[j].0 != p,
    ensures
        lookup(s, p) == None::<(bool, Seq<Seq<char>>)>,
    decreases s.len(),
{
    if s.len() > 0 {
        lemma_lookup_none(s.drop_first(), p);
    }
}

} // verus!

//! The configuration: named types with named fields, named enums with named
//! variants, and the server's settings.
//!
//! Each namespace is a list of entries. The order of the entries is the
//! order in which a lint goes through them, and a rename leaves every entry
//! in its place. What a field or a variant carries besides its name is of a
//! type that the caller chooses; the lint hands it on untouched.

use crate::case::TextCase;
use crate::naming::Category;
use crate::text::texts;
use vstd::prelude::*;

verus! {

/// The lint settings of a server.
#[derive(Clone, Copy, Debug, PartialEq, Eq)]
pub struct Lint {
    /// Hold every domain to its built-in style unless a style is named for it.
    pub default: Option<bool>,
    /// Rename the identifiers that are not in their style instead of
    /// reporting them.
    pub autofix: Option<bool>,
    /// The style of field names.
    pub field_lint: Option<TextCase>,
    /// The style of type names.
    pub type_lint: Option<TextCase>,
    /// The style of enum names.
    pub enum_lint: Option<TextCase>,
    /// The style of the names of enum variants.
    pub enum_value_lint: Option<TextCase>,
}

impl Lint {
    /// Whether identifiers are renamed rather than reported.
    pub open spec fn fixes(self) -> bool {
        self.autofix == Some(true)
    }

    /// The style that is named for a domain.
    pub open spec fn named_style(self, category: Category) -> Option<TextCase> {
        match category {
            Category::Field => self.field_lint,
            Category::Type => self.type_lint,
            Category::Enum => self.enum_lint,
            Category::EnumValue => self.enum_value_lint,
        }
    }

    /// The style that a domain is held to: the one named for it; else, where
    /// the defaults are asked for, its built-in style; else none, and the
    /// domain is left alone.
    pub open spec fn style_of(self, category: Category) -> Option<TextCase> {
        match self.named_style(category) {
            Some(style) => Some(style),
            None => if self.default == Some(true) {
                Some(category.default_style())
            } else {
                None
            },
        }
    }

    /// Whether identifiers are renamed rather than reported.
    pub fn is_autofix(&self) -> (yes: bool)
        ensures
            yes == self.fixes(),
    {
        match self.autofix {
            Some(yes) => yes,
            None => false,
        }
    }

    /// The style that a domain is held to, if any.
    pub fn effective_style(&self, category: Category) -> (out: Option<TextCase>)
        ensures
            out == self.style_of(category),
    {
        let named = match category {
            Category::Field => self.field_lint,
            Category::Type => self.type_lint,
            Category::Enum => self.enum_lint,
            Category::EnumValue => self.enum_value_lint,
        };
        match named {
            Some(style) => Some(style),
            None => match self.default {
                Some(true) => Some(category.default_case()),
                _ => None,
            },
        }
    }
}

/// The settings of the server.
#[derive(Clone, Copy, Debug, PartialEq, Eq)]
pub struct Server {
    /// The lint settings; without them no lint takes place.
    pub lint: Option<Lint>,
}

/// A name and what it names.
#[derive(Clone, Debug, PartialEq, Eq)]
pub struct Entry<T> {
    pub name: String,
    pub value: T,
}

/// A type: its fields by name. `F` is what a field carries.
#[derive(Clone, Debug, PartialEq, Eq)]
pub struct Type<F> {
    pub fields: Vec<Entry<F>>,
}

/// An enum: its variants by name. `V` is what a variant carries.
#[derive(Clone, Debug, PartialEq, Eq)]
pub struct Enum<V> {
    pub variants: Vec<Entry<V>>,
}

/// A configuration.
#[derive(Clone, Debug, PartialEq, Eq)]
pub struct Config<F, V> {
    pub types: Vec<Entry<Type<F>>>,
    pub enums: Vec<Entry<Enum<V>>>,
    pub server: Server,
}

/// A name and what it names, as contracts see them.
pub struct Item<X> {
    pub name: Seq<char>,
    pub value: X,
}

/// A configuration as contracts see it.
pub struct ConfigView<F, V> {
    pub types: Seq<Item<Seq<Item<F>>>>,
    pub enums: Seq<Item<Seq<Item<V>>>>,
    pub lint: Option<Lint>,
}

/// The items that a list of entries holds.
pub open spec fn items<X>(entries: Seq<Entry<X>>) -> Seq<Item<X>> {
    entries.map_values(|e: Entry<X>| Item { name: e.name@, value: e.value })
}

/// The names of a namespace, in order.
pub open spec fn names<X>(namespace: Seq<Item<X>>) -> Seq<Seq<char>> {
    namespace.map_values(|item: Item<X>| item.name)
}

impl<F> View for Type<F> {
    type V = Seq<Item<F>>;

    open spec fn view(&self) -> Seq<Item<F>> {
        items(self.fields@)
    }
}

impl<V> View for Enum<V> {
    type V = Seq<Item<V>>;

    open spec fn view(&self) -> Seq<Item<V>> {
        items(self.variants@)
    }
}

/// The types that a list of entries holds.
pub open spec fn type_items<F>(entries: Seq<Entry<Type<F>>>) -> Seq<Item<Seq<Item<F>>>> {
    entries.map_values(|e: Entry<Type<F>>| Item { name: e.name@, value: e.value@ })
}

/// The enums that a list of entries holds.
pub open spec fn enum_items<V>(entries: Seq<Entry<Enum<V>>>) -> Seq<Item<Seq<Item<V>>>> {
    entries.map_values(|e: Entry<Enum<V>>| Item { name: e.name@, value: e.value@ })
}

impl<F, V> View for Config<F, V> {
    type V = ConfigView<F, V>;

    open spec fn view(&self) -> ConfigView<F, V> {
        ConfigView {
            types: type_items(self.types@),
            enums: enum_items(self.enums@),
            lint: self.server.lint,
        }
    }
}

impl<F, V> ConfigView<F, V> {
    /// Whether no namespace holds a name twice: the types differ in their
    /// names, and so do the fields of each type, the enums, and the variants
    /// of each enum. The lint asks this of no configuration, and keeps it of
    /// every configuration that has it.
    pub open spec fn well_formed(self) -> bool {
        &&& names(self.types).no_duplicates()
        &&& names(self.enums).no_duplicates()
        &&& forall|t: int|
            0 <= t < self.types.len() ==> names((#[trigger] self.types[t]).value).no_duplicates()
        &&& forall|e: int|
            0 <= e < self.enums.len() ==> names((#[trigger] self.enums[e]).value).no_duplicates()
    }
}

/// The names that a list of entries bears, in order.
pub open spec fn entry_names<T>(entries: Seq<Entry<T>>) -> Seq<Seq<char>> {
    entries.map_values(|e: Entry<T>| e.name@)
}

/// The names of a namespace, in order.
pub fn names_of<T>(entries: &Vec<Entry<T>>) -> (out: Vec<String>)
    ensures
        texts(out@) == entry_names(entries@),
{
    let mut out: Vec<String> = Vec::new();
    let mut i: usize = 0;
    while i < entries.len()
        invariant
            i <= entries.len(),
            texts(out@) == entry_names(entries@).take(i as int),
        decreases entries.len() - i,
    {
        let name = entries[i].name.clone();
        let ghost before = texts(out@);
        out.push(name);
        proof {
            assert(texts(out@) =~= before.push(name@));
            assert(entry_names(entries@).take(i + 1) =~= before.push(name@));
        }
        i += 1;
    }
    proof {
        assert(entry_names(entries@).take(entries.len() as int) == entry_names(entries@));
    }
    out
}

/// Whether no two entries of a namespace bear the same name.
pub fn has_distinct_names<T>(entries: &Vec<Entry<T>>) -> (yes: bool)
    ensures
        yes == entry_names(entries@).no_duplicates(),
{
    let ghost all = entry_names(entries@);
    let mut i: usize = 0;
    while i < entries.len()
        invariant
            i <= entries.len(),
            all == entry_names(entries@),
            forall|a: int, b: int| 0 <= a < b < i ==> all[a] != all[b],
        decreases entries.len() - i,
    {
        let mut j: usize = 0;
        while j < i
            invariant
                j <= i < entries.len(),
                all == entry_names(entries@),
                forall|a: int| 0 <= a < j ==> all[a] != all[i as int],
            decreases i - j,
        {
            if entries[j].name == entries[i].name {
                assert(all[j as int] == all[i as int]);
                return false;
            }
            j += 1;
        }
        i += 1;
    }
    assert forall|a: int, b: int| 0 <= a < all.len() && 0 <= b < all.len() && a != b implies all[a]
        != all[b] by {
        if a < b {
        } else {
            assert(all[b] != all[a]);
        }
    }
    true
}

impl<F, V> Config<F, V> {
    /// Whether no namespace of the configuration holds a name twice.
    pub fn is_well_formed(&self) -> (yes: bool)
        ensures
            yes == self@.well_formed(),
    {
        assert(names(self@.types) =~= entry_names(self.types@));
        assert(names(self@.enums) =~= entry_names(self.enums@));
        if !has_distinct_names(&self.types) || !has_distinct_names(&self.enums) {
            return false;
        }
        let mut t: usize = 0;
        while t < self.types.len()
            invariant
                t <= self.types.len(),
                forall|k: int|
                    0 <= k < t ==> names((#[trigger] self@.types[k]).value).no_duplicates(),
            decreases self.types.len() - t,
        {
            assert(names(self@.types[t as int].value) =~= entry_names(
                self.types@[t as int].value.fields@,
            ));
            if !has_distinct_names(&self.types[t].value.fields) {
                return false;
            }
            t += 1;
        }
        let mut e: usize = 0;
        while e < self.enums.len()
            invariant
                e <= self.enums.len(),
                forall|k: int|
                    0 <= k < e ==> names((#[trigger] self@.enums[k]).value).no_duplicates(),
            decreases self.enums.len() - e,
        {
            assert(names(self@.enums[e as int].value) =~= entry_names(
                self.enums@[e as int].value.variants@,
            ));
            if !has_distinct_names(&self.enums[e].value.variants) {
                return false;
            }
            e += 1;
        }
        true
    }
}

} // verus!

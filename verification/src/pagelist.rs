//! Lists of wiki pages, and how they are merged.
use crate::string_map::StringMap;
use crate::text::texts;
use crate::title::{title_key, title_key_injective, Title};
use vstd::prelude::*;
use vstd::string::*;

verus! {

broadcast use {vstd::seq_lib::group_seq_properties, crate::text::lemma_texts_push};

/// What the list knows of a page.
pub struct EntryView {
    pub title: (int, Seq<char>),
    pub does_exist: Option<bool>,
    pub is_redirect: Option<bool>,
    pub wikidata_item: Option<Seq<char>>,
}

/// The text of an optional string.
pub open spec fn optional_text(s: Option<String>) -> Option<Seq<char>> {
    match s {
        Some(s) => Some(s@),
        None => None,
    }
}

/// A page in a list.
#[derive(Debug)]
pub struct PageListEntry {
    title: Title,
    pub does_exist: Option<bool>,
    pub is_redirect: Option<bool>,
    pub wikidata_item: Option<String>,
}

impl View for PageListEntry {
    type V = EntryView;

    closed spec fn view(&self) -> EntryView {
        EntryView {
            title: self.title@,
            does_exist: self.does_exist,
            is_redirect: self.is_redirect,
            wikidata_item: optional_text(self.wikidata_item),
        }
    }
}

impl PageListEntry {
    /// An entry for the page, of which nothing else is known.
    pub fn new(title: Title) -> (entry: Self)
        ensures
            entry@ == (EntryView {
                title: title@,
                does_exist: None,
                is_redirect: None,
                wikidata_item: None,
            }),
    {
        Self { title: title, does_exist: None, is_redirect: None, wikidata_item: None }
    }

    /// The title of the page.
    pub fn title(&self) -> (title: &Title)
        ensures
            title@ == self@.title,
    {
        &self.title
    }

    /// Whether the page exists, if that is known.
    pub fn does_exist(&self) -> (known: Option<bool>)
        ensures
            known == self@.does_exist,
    {
        self.does_exist
    }

    /// Whether the page is a redirect, if that is known.
    pub fn is_redirect(&self) -> (known: Option<bool>)
        ensures
            known == self@.is_redirect,
    {
        self.is_redirect
    }

    /// The item that the page is about, if one is known.
    pub fn wikidata_item(&self) -> (item: Option<&String>)
        ensures
            match item {
                Some(item) => self@.wikidata_item == Some(item@),
                None => self@.wikidata_item is None,
            },
    {
        match &self.wikidata_item {
            Some(item) => Some(item),
            None => None,
        }
    }

    /// Notes whether the page exists.
    pub fn set_does_exist(&mut self, known: Option<bool>)
        ensures
            final(self)@ == (EntryView { does_exist: known, ..old(self)@ }),
    {
        self.does_exist = known;
    }

    /// Notes whether the page is a redirect.
    pub fn set_is_redirect(&mut self, known: Option<bool>)
        ensures
            final(self)@ == (EntryView { is_redirect: known, ..old(self)@ }),
    {
        self.is_redirect = known;
    }

    /// Notes the item that the page is about.
    pub fn set_wikidata_item(&mut self, item: Option<String>)
        ensures
            final(self)@ == (EntryView { wikidata_item: optional_text(item), ..old(self)@ }),
    {
        self.wikidata_item = item;
    }
}

impl Clone for PageListEntry {
    fn clone(&self) -> (entry: Self)
        ensures
            entry@ == self@,
    {
        Self {
            title: self.title.clone(),
            does_exist: self.does_exist,
            is_redirect: self.is_redirect,
            wikidata_item: match &self.wikidata_item {
                Some(item) => Some(item.clone()),
                None => None,
            },
        }
    }
}

/// Entries are equal if they are about the same page.
impl PartialEq for PageListEntry {
    fn eq(&self, other: &Self) -> (yes: bool) {
        self.title.same_as(&other.title)
    }
}

impl vstd::std_specs::cmp::PartialEqSpecImpl for PageListEntry {
    open spec fn obeys_eq_spec() -> bool {
        true
    }

    open spec fn eq_spec(&self, other: &Self) -> bool {
        self@.title == other@.title
    }
}

impl Eq for PageListEntry {

}

/// The hash is that of the title, by which entries are compared.
impl std::hash::Hash for PageListEntry {
    fn hash<H: std::hash::Hasher>(&self, state: &mut H) {
        self.title.namespace_id().hash(state);
        self.title.pretty().hash(state);
    }
}

/// Whether the sequence lists the entries, each once.
pub open spec fn lists_entries(s: Seq<EntryView>, m: Map<(int, Seq<char>), EntryView>) -> bool {
    &&& forall|i: int|
        0 <= i < s.len() ==> m.contains_key((#[trigger] s[i]).title) && m[s[i].title] == s[i]
    &&& forall|i: int, j: int|
        0 <= i < j < s.len() ==> (#[trigger] s[i]).title != (#[trigger] s[j]).title
    &&& forall|t: (int, Seq<char>)| #[trigger]
        m.contains_key(t) ==> exists|i: int| 0 <= i < s.len() && (#[trigger] s[i]).title == t
}

/// The views of entries.
pub open spec fn entry_views(entries: Seq<PageListEntry>) -> Seq<EntryView> {
    entries.map_values(|e: PageListEntry| e@)
}

/// A set of entries, at most one for each page.
pub struct EntrySet {
    map: StringMap<PageListEntry>,
}

impl View for EntrySet {
    type V = Map<(int, Seq<char>), EntryView>;

    closed spec fn view(&self) -> Map<(int, Seq<char>), EntryView> {
        Map::new(
            |t: (int, Seq<char>)| self.map@.contains_key(title_key(t)),
            |t: (int, Seq<char>)| self.map@[title_key(t)]@,
        )
    }
}

/// The entries with one more, which stays out if its page has an entry already.
pub open spec fn with_entry(
    m: Map<(int, Seq<char>), EntryView>,
    entry: EntryView,
) -> Map<(int, Seq<char>), EntryView> {
    if m.contains_key(entry.title) {
        m
    } else {
        m.insert(entry.title, entry)
    }
}

/// The entries with some more, taken in one after the other.
pub open spec fn with_entries(
    m: Map<(int, Seq<char>), EntryView>,
    entries: Seq<EntryView>,
) -> Map<(int, Seq<char>), EntryView>
    decreases entries.len(),
{
    if entries.len() == 0 {
        m
    } else {
        with_entry(with_entries(m, entries.drop_last()), entries.last())
    }
}

/// The names of the pages in the main namespace.
pub open spec fn main_names(m: Map<(int, Seq<char>), EntryView>) -> Set<Seq<char>> {
    Set::new(|name: Seq<char>| m.contains_key((0, name)))
}

impl EntrySet {
    /// Each entry is filed under the key of its title.
    #[verifier::type_invariant]
    closed spec fn filed(self) -> bool {
        forall|k: Seq<char>| #[trigger]
            self.map@.contains_key(k) ==> title_key(self.map@[k]@.title) == k
    }

    /// A set without entries.
    pub fn new() -> (set: Self)
        ensures
            set@ == Map::<(int, Seq<char>), EntryView>::empty(),
    {
        let set = EntrySet { map: StringMap::new() };
        assert(set@ =~= Map::<(int, Seq<char>), EntryView>::empty());
        set
    }

    /// Tells whether the page has an entry.
    pub fn contains(&self, title: &Title) -> (yes: bool)
        ensures
            yes == self@.contains_key(title@),
    {
        self.map.contains_key(title.key().as_str())
    }

    /// The entry of the page.
    pub fn get(&self, title: &Title) -> (entry: Option<&PageListEntry>)
        ensures
            match entry {
                Some(e) => self@.contains_key(title@) && self@[title@] == e@,
                None => !self@.contains_key(title@),
            },
    {
        self.map.get(title.key().as_str())
    }

    /// Takes the entry in, unless its page has one already.
    pub fn insert(&mut self, entry: PageListEntry)
        ensures
            final(self)@ == with_entry(old(self)@, entry@),
    {
        proof {
            use_type_invariant(&*self);
        }
        let mut map = StringMap::new();
        std::mem::swap(&mut self.map, &mut map);
        let ghost before = map@;
        let key = entry.title.key();
        if !map.contains_key(key.as_str()) {
            map.insert(key, entry);
        }
        self.map = map;
        proof {
            assert forall|t: (int, Seq<char>)| #[trigger]
                title_key(t) == title_key(entry@.title) implies t == entry@.title by {
                title_key_injective(t, entry@.title);
            }
            assert(self@ =~= with_entry(old(self)@, entry@));
        }
    }

    /// The number of entries.
    pub fn len(&self) -> (n: usize)
        ensures
            n == self@.dom().len(),
            self@.dom().finite(),
    {
        proof {
            use_type_invariant(self);
        }
        let n = self.map.len();
        proof {
            let s = Seq::new(
                self.map.order().len(),
                |i: int| self.map@[self.map.order()[i]]@,
            );
            self.lemma_lists(s);
            let titles = Seq::new(s.len(), |i: int| s[i].title);
            assert(titles.no_duplicates()) by {
                assert forall|i: int, j: int|
                    0 <= i < titles.len() && 0 <= j < titles.len() && i != j implies titles[i]
                    != titles[j] by {
                    if i < j {
                        assert(s[i].title != s[j].title);
                    } else {
                        assert(s[j].title != s[i].title);
                    }
                }
            }
            titles.unique_seq_to_set();
            assert forall|t: (int, Seq<char>)| self@.dom().contains(t) implies titles.to_set().contains(
                t,
            ) by {
                assert(self@.contains_key(t));
                let i = choose|i: int| 0 <= i < s.len() && (#[trigger] s[i]).title == t;
                assert(titles[i] == t);
            }
            assert(titles.to_set() =~= self@.dom());
        }
        n
    }

    proof fn lemma_lists(self, s: Seq<EntryView>)
        requires
            self.filed(),
            self.map.ordered(),
            s == Seq::new(self.map.order().len(), |i: int| self.map@[self.map.order()[i]]@),
        ensures
            lists_entries(s, self@),
    {
        let order = self.map.order();
        assert forall|i: int| 0 <= i < s.len() implies self@.contains_key((#[trigger] s[i]).title)
            && self@[s[i].title] == s[i] by {
            assert(order.to_set().contains(order[i]));
            assert(self.map@.contains_key(order[i]));
        }
        assert forall|i: int, j: int| 0 <= i < j < s.len() implies (#[trigger] s[i]).title
            != (#[trigger] s[j]).title by {
            assert(order.to_set().contains(order[i]));
            assert(order.to_set().contains(order[j]));
            assert(self.map@.contains_key(order[i]));
            assert(self.map@.contains_key(order[j]));
            assert(order[i] != order[j]);
        }
        assert forall|t: (int, Seq<char>)| #[trigger] self@.contains_key(t) implies exists|i: int|
            0 <= i < s.len() && (#[trigger] s[i]).title == t by {
            assert(order.to_set().contains(title_key(t)));
            let i = choose|i: int| 0 <= i < order.len() && order[i] == title_key(t);
            title_key_injective(s[i].title, t);
            assert(s[i].title == t);
        }
    }

    /// The names of the pages in the main namespace, in any order.
    pub fn main_names(&self) -> (names: Vec<String>)
        ensures
            texts(names@).to_set() == main_names(self@),
    {
        proof {
            use_type_invariant(self);
        }
        let n = self.map.len();
        let ghost order = self.map.order();
        let mut names: Vec<String> = Vec::new();
        let mut i: usize = 0;
        while i < n
            invariant
                i <= n,
                n == order.len(),
                order == self.map.order(),
                self.filed(),
                forall|name: Seq<char>| #[trigger]
                    texts(names@).contains(name) <==> exists|k: int|
                        0 <= k < i && #[trigger] order[k] == title_key((0, name)),
            decreases n - i,
        {
            let entry = self.map.entry_at(i).1;
            let ghost before = names@;
            proof {
                assert forall|name: Seq<char>| order[i as int] == #[trigger] title_key(
                    (0, name),
                ) <==> entry@.title == (0int, name) by {
                    title_key_injective((0, name), entry@.title);
                }
            }
            if entry.title.namespace_id() == 0 {
                names.push(entry.title.pretty().to_owned());
            }
            proof {
                assert forall|name: Seq<char>| #[trigger] texts(names@).contains(
                    name,
                ) <==> exists|k: int|
                    0 <= k < i + 1 && #[trigger] order[k] == title_key((0, name)) by {
                    assert(texts(before).contains(name) <==> exists|k: int|
                        0 <= k < i && #[trigger] order[k] == title_key((0, name)));
                }
            }
            i += 1;
        }
        proof {
            assert forall|name: Seq<char>| texts(names@).contains(name) <==> self@.contains_key(
                (0int, name),
            ) by {
                if self@.contains_key((0int, name)) {
                    assert(order.to_set().contains(title_key((0, name))));
                    let k = choose|k: int| 0 <= k < order.len() && order[k] == title_key((0, name));
                    assert(order[k] == title_key((0, name)));
                }
                if texts(names@).contains(name) {
                    let k = choose|k: int|
                        0 <= k < n && #[trigger] order[k] == title_key((0, name));
                    assert(order.to_set().contains(order[k]));
                }
            }
            assert(texts(names@).to_set() =~= main_names(self@));
        }
        names
    }

    /// Tells whether all the pages have entries in the other set.
    fn is_subset(&self, other: &EntrySet) -> (yes: bool)
        ensures
            yes == self@.dom().subset_of(other@.dom()),
    {
        proof {
            use_type_invariant(self);
            use_type_invariant(other);
        }
        let n = self.map.len();
        let ghost order = self.map.order();
        let mut i: usize = 0;
        while i < n
            invariant
                i <= n,
                n == order.len(),
                order == self.map.order(),
                self.filed(),
                forall|k: int| 0 <= k < i ==> other.map@.contains_key(#[trigger] order[k]),
            decreases n - i,
        {
            let (key, entry) = self.map.entry_at(i);
            if !other.map.contains_key(key.as_str()) {
                proof {
                    assert(self@.dom().contains(entry@.title));
                }
                return false;
            }
            i += 1;
        }
        proof {
            assert forall|t: (int, Seq<char>)| self@.dom().contains(t) implies other@.dom().contains(
                t,
            ) by {
                assert(order.to_set().contains(title_key(t)));
                let k = choose|k: int| 0 <= k < order.len() && order[k] == title_key(t);
                assert(other.map@.contains_key(order[k]));
            }
        }
        true
    }

    /// The entries, each once.
    pub fn into_vec(self) -> (entries: Vec<PageListEntry>)
        ensures
            lists_entries(entry_views(entries@), self@),
    {
        proof {
            use_type_invariant(&self);
        }
        let ghost whole = self;
        let EntrySet { map } = self;
        let filed = map.into_entries();
        let mut entries: Vec<PageListEntry> = Vec::new();
        for entry in it: filed
            invariant
                it.seq() == filed@,
                entries@.len() == it.index(),
                forall|i: int| 0 <= i < it.index() ==> #[trigger] entries@[i] == filed@[i].1,
        {
            entries.push(entry.1);
        }
        proof {
            assert(entry_views(entries@) =~= Seq::new(
                whole.map.order().len(),
                |i: int| whole.map@[whole.map.order()[i]]@,
            ));
            whole.lemma_lists(entry_views(entries@));
        }
        entries
    }
}

impl Clone for EntrySet {
    fn clone(&self) -> (set: Self)
        ensures
            set@ == self@,
    {
        proof {
            use_type_invariant(self);
        }
        let mut set = EntrySet::new();
        let n = self.map.len();
        let ghost order = self.map.order();
        let mut i: usize = 0;
        while i < n
            invariant
                i <= n,
                n == order.len(),
                order == self.map.order(),
                self.map.ordered(),
                self.filed(),
                forall|t: (int, Seq<char>)| #[trigger]
                    set@.contains_key(t) <==> exists|k: int|
                        0 <= k < i && #[trigger] order[k] == title_key(t),
                forall|t: (int, Seq<char>)| #[trigger]
                    set@.contains_key(t) ==> self@.contains_key(t) && set@[t] == self@[t],
            decreases n - i,
        {
            let (key, entry) = self.map.entry_at(i);
            let ghost before = set@;
            set.insert(entry.clone());
            proof {
                assert forall|t: (int, Seq<char>)| #[trigger]
                    set@.contains_key(t) <==> exists|k: int|
                        0 <= k < i + 1 && #[trigger] order[k] == title_key(t) by {
                    title_key_injective(t, entry@.title);
                    assert(before.contains_key(t) <==> exists|k: int|
                        0 <= k < i && #[trigger] order[k] == title_key(t));
                    assert(order[i as int] == title_key(entry@.title));
                }
                assert(!before.contains_key(entry@.title));
            }
            i += 1;
        }
        proof {
            assert forall|t: (int, Seq<char>)| self@.contains_key(t) implies set@.contains_key(
                t,
            ) by {
                assert(order.to_set().contains(title_key(t)));
                let k = choose|k: int| 0 <= k < order.len() && order[k] == title_key(t);
                assert(order[k] == title_key(t));
            }
            assert(set@ =~= self@);
        }
        set
    }
}

/// A list of pages of one wiki.
pub struct PageList {
    pub wiki: Option<String>,
    pub entries: EntrySet,
}

impl Clone for PageList {
    fn clone(&self) -> (list: Self)
        ensures
            optional_text(list.wiki) == optional_text(self.wiki),
            list.entries@ == self.entries@,
    {
        PageList {
            wiki: match &self.wiki {
                Some(wiki) => Some(wiki.clone()),
                None => None,
            },
            entries: self.entries.clone(),
        }
    }
}

/// Lists are equal if they are of one wiki and have the same pages.
impl PartialEq for PageList {
    fn eq(&self, other: &Self) -> (yes: bool) {
        let same_wiki = match (&self.wiki, &other.wiki) {
            (Some(a), Some(b)) => a.eq(b),
            (None, None) => true,
            _ => false,
        };
        let same_pages = self.entries.is_subset(&other.entries) && other.entries.is_subset(
            &self.entries,
        );
        proof {
            assert(same_pages == (self.entries@.dom() =~= other.entries@.dom()));
        }
        same_wiki && same_pages
    }
}

impl vstd::std_specs::cmp::PartialEqSpecImpl for PageList {
    open spec fn obeys_eq_spec() -> bool {
        true
    }

    open spec fn eq_spec(&self, other: &Self) -> bool {
        &&& optional_text(self.wiki) == optional_text(other.wiki)
        &&& self.entries@.dom() == other.entries@.dom()
    }
}

/// The wiki of Wikidata.
pub const WIKIDATA_WIKI: &'static str = "wikidatawiki";

/// Why a list cannot be merged into another: the message, if there is a reason.
pub open spec fn merge_error(list: PageList, other: Option<PageList>) -> Option<Seq<char>> {
    match other {
        None => Some("PageList::check_before_merging pagelist is None"@),
        Some(other) => match (list.wiki, other.wiki) {
            (None, _) => Some("PageList::check_before_merging self.wiki is not set"@),
            (Some(_), None) => Some("PageList::check_before_merging pagelist.wiki is not set"@),
            (Some(a), Some(b)) => if a@ == b@ {
                None
            } else {
                Some(
                    "PageList::check_before_merging wikis are not identical: "@ + a@ + "/"@ + b@,
                )
            },
        },
    }
}

/// Whether each entry of `m` is one that `a` or `b` has for the page.
pub open spec fn entries_from(
    m: Map<(int, Seq<char>), EntryView>,
    a: Map<(int, Seq<char>), EntryView>,
    b: Map<(int, Seq<char>), EntryView>,
) -> bool {
    forall|t: (int, Seq<char>)| #[trigger]
        m.contains_key(t) ==> {
            ||| a.contains_key(t) && m[t] == a[t]
            ||| b.contains_key(t) && m[t] == b[t]
        }
}

/// Whether a list has the pages of two lists, each with an entry of one of them.
pub open spec fn is_union(
    after: Map<(int, Seq<char>), EntryView>,
    mine: Map<(int, Seq<char>), EntryView>,
    theirs: Map<(int, Seq<char>), EntryView>,
) -> bool {
    after.dom() == mine.dom().union(theirs.dom()) && entries_from(after, mine, theirs)
}

/// Whether a list has the pages that are in both of two lists, each with an entry
/// of one of them.
pub open spec fn is_intersection(
    after: Map<(int, Seq<char>), EntryView>,
    mine: Map<(int, Seq<char>), EntryView>,
    theirs: Map<(int, Seq<char>), EntryView>,
) -> bool {
    after.dom() == mine.dom().intersect(theirs.dom()) && entries_from(after, mine, theirs)
}

/// Whether a list has the entries of one list whose pages are not in the other.
pub open spec fn is_difference(
    after: Map<(int, Seq<char>), EntryView>,
    mine: Map<(int, Seq<char>), EntryView>,
    theirs: Map<(int, Seq<char>), EntryView>,
) -> bool {
    after == mine.remove_keys(theirs.dom())
}

impl PageList {
    /// An empty list of pages of the wiki.
    pub fn new_from_wiki(wiki: &str) -> (list: Self)
        ensures
            optional_text(list.wiki) == Some(wiki@),
            list.entries@ == Map::<(int, Seq<char>), EntryView>::empty(),
    {
        Self { wiki: Some(wiki.to_string()), entries: EntrySet::new() }
    }

    /// A list of pages of the wiki. Of several entries for one page the first
    /// is taken.
    pub fn new_from_vec(wiki: &str, entries: Vec<PageListEntry>) -> (list: Self)
        ensures
            optional_text(list.wiki) == Some(wiki@),
            list.entries@ == with_entries(Map::empty(), entry_views(entries@)),
    {
        let mut list = Self { wiki: Some(wiki.to_string()), entries: EntrySet::new() };
        list.set_entries_from_vec(entries);
        list
    }

    /// Adds an entry, unless the page is in the list.
    pub fn add_entry(&mut self, entry: PageListEntry)
        ensures
            final(self).wiki == old(self).wiki,
            final(self).entries@ == with_entry(old(self).entries@, entry@),
    {
        self.entries.insert(entry);
    }

    /// Adds the entries whose pages are not in the list. Of several entries
    /// for one page the first is taken.
    pub fn set_entries_from_vec(&mut self, entries: Vec<PageListEntry>)
        ensures
            final(self).wiki == old(self).wiki,
            final(self).entries@ == with_entries(old(self).entries@, entry_views(entries@)),
    {
        let ghost views = entry_views(entries@);
        for entry in it: entries
            invariant
                it.seq() == entries@,
                views == entry_views(entries@),
                self.wiki == old(self).wiki,
                self.entries@ == with_entries(
                    old(self).entries@,
                    views.take(it.index() as int),
                ),
        {
            proof {
                assert(views.take(it.index() + 1).drop_last() =~= views.take(it.index() as int));
                assert(views.take(it.index() + 1).last() == entry@);
            }
            self.entries.insert(entry);
        }
        proof {
            assert(views.take(views.len() as int) =~= views);
        }
    }

    /// Tells whether the pages are those of Wikidata.
    pub fn is_wikidata(&self) -> (yes: bool)
        ensures
            yes == (optional_text(self.wiki) == Some(WIKIDATA_WIKI@)),
    {
        match &self.wiki {
            Some(wiki) => wiki.eq(&WIKIDATA_WIKI.to_string()),
            None => false,
        }
    }

    /// The entries of the other list, if the two can be merged: both are lists
    /// of pages of one wiki.
    fn check_before_merging(&self, pagelist: Option<PageList>) -> (res: Result<EntrySet, String>)
        ensures
            match res {
                Ok(entries) => merge_error(*self, pagelist) is None && entries@
                    == pagelist.unwrap().entries@,
                Err(e) => merge_error(*self, pagelist) == Some(e@),
            },
    {
        match pagelist {
            Some(pagelist) => match (&self.wiki, pagelist.wiki) {
                (None, _) => Err(
                    "PageList::check_before_merging self.wiki is not set".to_string(),
                ),
                (Some(_), None) => Err(
                    "PageList::check_before_merging pagelist.wiki is not set".to_string(),
                ),
                (Some(a), Some(b)) => {
                    if a.eq(&b) {
                        Ok(pagelist.entries)
                    } else {
                        let mut e =
                            "PageList::check_before_merging wikis are not identical: ".to_string();
                        e.append(a.as_str());
                        e.append("/");
                        e.append(b.as_str());
                        Err(e)
                    }
                },
            },
            None => Err("PageList::check_before_merging pagelist is None".to_string()),
        }
    }

    /// Adds the pages of the other list. A page that is in both keeps the
    /// entry of one of the two.
    pub fn union(&mut self, pagelist: Option<PageList>) -> (res: Result<(), String>)
        ensures
            final(self).wiki == old(self).wiki,
            match res {
                Ok(_) => {
                    let other = pagelist.unwrap().entries@;
                    &&& merge_error(*old(self), pagelist) is None
                    &&& is_union(final(self).entries@, old(self).entries@, other)
                },
                Err(e) => merge_error(*old(self), pagelist) == Some(e@) && *final(self) == *old(
                    self,
                ),
            },
    {
        let other = match self.check_before_merging(pagelist) {
            Ok(other) => other,
            Err(e) => return Err(e),
        };
        let ghost mine = self.entries@;
        let ghost theirs = other@;
        let list = other.into_vec();
        let ghost views = entry_views(list@);
        for entry in it: list
            invariant
                it.seq() == list@,
                views == entry_views(list@),
                lists_entries(views, theirs),
                self.wiki == old(self).wiki,
                forall|t: (int, Seq<char>)| #[trigger]
                    self.entries@.contains_key(t) <==> mine.contains_key(t) || (exists|i: int|
                        0 <= i < it.index() && (#[trigger] views[i]).title == t),
                entries_from(self.entries@, mine, theirs),
        {
            proof {
                assert(views[it.index() as int] == entry@);
            }
            self.entries.insert(entry);
        }
        proof {
            assert(self.entries@.dom() =~= mine.dom().union(theirs.dom()));
        }
        Ok(())
    }

    /// Keeps the pages that are in the other list too, each with the entry of
    /// one of the two.
    pub fn intersection(&mut self, pagelist: Option<PageList>) -> (res: Result<(), String>)
        ensures
            final(self).wiki == old(self).wiki,
            match res {
                Ok(_) => {
                    let other = pagelist.unwrap().entries@;
                    &&& merge_error(*old(self), pagelist) is None
                    &&& is_intersection(final(self).entries@, old(self).entries@, other)
                },
                Err(e) => merge_error(*old(self), pagelist) == Some(e@) && *final(self) == *old(
                    self,
                ),
            },
    {
        let other = match self.check_before_merging(pagelist) {
            Ok(other) => other,
            Err(e) => return Err(e),
        };
        let ghost theirs = other@;
        self.keep(&other, true);
        proof {
            assert(self.entries@.dom() =~= old(self).entries@.dom().intersect(theirs.dom()));
        }
        Ok(())
    }

    /// Takes the pages of the other list out.
    pub fn difference(&mut self, pagelist: Option<PageList>) -> (res: Result<(), String>)
        ensures
            final(self).wiki == old(self).wiki,
            match res {
                Ok(_) => {
                    let other = pagelist.unwrap().entries@;
                    &&& merge_error(*old(self), pagelist) is None
                    &&& is_difference(final(self).entries@, old(self).entries@, other)
                },
                Err(e) => merge_error(*old(self), pagelist) == Some(e@) && *final(self) == *old(
                    self,
                ),
            },
    {
        let other = match self.check_before_merging(pagelist) {
            Ok(other) => other,
            Err(e) => return Err(e),
        };
        let ghost theirs = other@;
        self.keep(&other, false);
        proof {
            assert(self.entries@ =~= old(self).entries@.remove_keys(theirs.dom()));
        }
        Ok(())
    }

    /// Keeps the entries whose pages are in the set, or those whose are not.
    fn keep(&mut self, set: &EntrySet, in_set: bool)
        ensures
            final(self).wiki == old(self).wiki,
            forall|t: (int, Seq<char>)| #[trigger]
                final(self).entries@.contains_key(t) <==> old(self).entries@.contains_key(t)
                    && set@.contains_key(t) == in_set,
            forall|t: (int, Seq<char>)| #[trigger]
                final(self).entries@.contains_key(t) ==> final(self).entries@[t] == old(
                    self,
                ).entries@[t],
    {
        let mut all = EntrySet::new();
        std::mem::swap(&mut self.entries, &mut all);
        let ghost mine = all@;
        let list = all.into_vec();
        let ghost views = entry_views(list@);
        for entry in it: list
            invariant
                it.seq() == list@,
                views == entry_views(list@),
                lists_entries(views, mine),
                self.wiki == old(self).wiki,
                forall|t: (int, Seq<char>)| #[trigger]
                    self.entries@.contains_key(t) <==> set@.contains_key(t) == in_set && (exists|
                        i: int,
                    |
                        0 <= i < it.index() && (#[trigger] views[i]).title == t),
                forall|t: (int, Seq<char>)| #[trigger]
                    self.entries@.contains_key(t) ==> mine.contains_key(t) && self.entries@[t]
                        == mine[t],
        {
            proof {
                assert(views[it.index() as int] == entry@);
            }
            if set.contains(entry.title()) == in_set {
                self.entries.insert(entry);
            }
        }
    }
}

} // verus!

//! The files that have been found for items, and how often each was.
use crate::answer::pair_texts;
use crate::filename::valid_filename;
use crate::string_map::StringMap;
use crate::text::texts;
use vstd::prelude::*;

verus! {

broadcast use {vstd::seq_lib::group_seq_properties, crate::text::lemma_texts_push};

/// Items, and for each the files found for it with their counts.
pub struct ItemFiles {
    map: StringMap<StringMap<usize>>,
}

impl View for ItemFiles {
    type V = Map<Seq<char>, Map<Seq<char>, usize>>;

    closed spec fn view(&self) -> Map<Seq<char>, Map<Seq<char>, usize>> {
        self.map@.map_values(|files: StringMap<usize>| files@)
    }
}

/// The files of an item; an item without an entry has none.
pub open spec fn files_of(
    m: Map<Seq<char>, Map<Seq<char>, usize>>,
    item: Seq<char>,
) -> Map<Seq<char>, usize> {
    if m.contains_key(item) {
        m[item]
    } else {
        Map::empty()
    }
}

/// How often a file has been found for an item.
pub open spec fn count_of(
    m: Map<Seq<char>, Map<Seq<char>, usize>>,
    item: Seq<char>,
    file: Seq<char>,
) -> nat {
    let files = files_of(m, item);
    if files.contains_key(file) {
        files[file] as nat
    } else {
        0
    }
}

/// The files after one has been found for an item once more.
pub open spec fn with_file(
    m: Map<Seq<char>, Map<Seq<char>, usize>>,
    item: Seq<char>,
    file: Seq<char>,
) -> Map<Seq<char>, Map<Seq<char>, usize>> {
    m.insert(item, files_of(m, item).insert(file, (count_of(m, item, file) + 1) as usize))
}

/// The files after those of the pairs of item and file that are valid have
/// been found.
pub open spec fn with_files(
    m: Map<Seq<char>, Map<Seq<char>, usize>>,
    pairs: Seq<(Seq<char>, Seq<char>)>,
    ignored: Set<Seq<char>>,
    allow_svg: bool,
    only_jpeg: bool,
) -> Map<Seq<char>, Map<Seq<char>, usize>>
    decreases pairs.len(),
{
    if pairs.len() == 0 {
        m
    } else {
        let before = with_files(m, pairs.drop_last(), ignored, allow_svg, only_jpeg);
        let (item, file) = pairs.last();
        if valid_filename(ignored, allow_svg, only_jpeg, file) {
            with_file(before, item, file)
        } else {
            before
        }
    }
}

/// Whether every count can grow by as much as the pairs of item and file make
/// it.
pub open spec fn room_for(
    m: Map<Seq<char>, Map<Seq<char>, usize>>,
    pairs: Seq<(Seq<char>, Seq<char>)>,
) -> bool {
    forall|item: Seq<char>, file: Seq<char>| #[trigger]
        count_of(m, item, file) + pairs.to_multiset().count((item, file)) <= usize::MAX
}

/// The files after one has been taken from an item. An item that has no files
/// then goes too.
pub open spec fn without_file(
    m: Map<Seq<char>, Map<Seq<char>, usize>>,
    item: Seq<char>,
    file: Seq<char>,
) -> Map<Seq<char>, Map<Seq<char>, usize>> {
    if !m.contains_key(item) {
        m
    } else if m[item].remove(file) == Map::<Seq<char>, usize>::empty() {
        m.remove(item)
    } else {
        m.insert(item, m[item].remove(file))
    }
}

/// Those of the items that have the file.
pub open spec fn holders_among(
    m: Map<Seq<char>, Map<Seq<char>, usize>>,
    items: Set<Seq<char>>,
    file: Seq<char>,
) -> Set<Seq<char>> {
    items.filter(|item: Seq<char>| m[item].contains_key(file))
}

/// The items that have the file.
pub open spec fn holders(m: Map<Seq<char>, Map<Seq<char>, usize>>, file: Seq<char>) -> Set<
    Seq<char>,
> {
    holders_among(m, m.dom(), file)
}

/// A count that stands in a map, or zero.
pub open spec fn count_in(counts: Map<Seq<char>, usize>, file: Seq<char>) -> nat {
    if counts.contains_key(file) {
        counts[file] as nat
    } else {
        0
    }
}

/// Where there is room for pairs, there is room for the first of them, and for
/// the others after it.
pub proof fn lemma_room_after(
    m: Map<Seq<char>, Map<Seq<char>, usize>>,
    pairs: Seq<(Seq<char>, Seq<char>)>,
)
    requires
        pairs.len() > 0,
        room_for(m, pairs),
    ensures
        count_of(m, pairs[0].0, pairs[0].1) < usize::MAX,
        room_for(m, pairs.skip(1)),
        room_for(with_file(m, pairs[0].0, pairs[0].1), pairs.skip(1)),
{
    let (item, file) = pairs[0];
    let rest = pairs.skip(1);
    let after = with_file(m, item, file);
    pairs.to_multiset_ensures();
    assert(rest =~= pairs.remove(0));
    assert(rest.to_multiset() =~= pairs.to_multiset().remove(pairs[0]));
    assert(pairs.contains(pairs[0]));
    assert(pairs.to_multiset().count((item, file)) > 0);
    assert(count_of(m, item, file) + pairs.to_multiset().count((item, file)) <= usize::MAX);
    assert forall|i: Seq<char>, f: Seq<char>| #[trigger] count_of(m, i, f)
        + rest.to_multiset().count((i, f)) <= usize::MAX by {
        assert(count_of(m, i, f) + pairs.to_multiset().count((i, f)) <= usize::MAX);
    }
    assert forall|i: Seq<char>, f: Seq<char>| #[trigger] count_of(after, i, f)
        + rest.to_multiset().count((i, f)) <= usize::MAX by {
        assert(count_of(m, i, f) + pairs.to_multiset().count((i, f)) <= usize::MAX);
    }
}

proof fn lemma_holders_push(
    m: Map<Seq<char>, Map<Seq<char>, usize>>,
    order: Seq<Seq<char>>,
    i: int,
    file: Seq<char>,
)
    requires
        order.no_duplicates(),
        0 <= i < order.len(),
    ensures
        holders_among(m, order.take(i).to_set(), file).finite(),
        holders_among(m, order.take(i).to_set(), file).len() <= i,
        holders_among(m, order.take(i + 1).to_set(), file).finite(),
        holders_among(m, order.take(i + 1).to_set(), file).len() == holders_among(
            m,
            order.take(i).to_set(),
            file,
        ).len() + (if m[order[i]].contains_key(file) {
            1int
        } else {
            0
        }),
{
    let seen = order.take(i).to_set();
    let next = order.take(i + 1).to_set();
    let some = holders_among(m, seen, file);
    order.take(i).unique_seq_to_set();
    vstd::set_lib::lemma_len_subset(some, seen);
    assert(order.take(i + 1) =~= order.take(i).push(order[i]));
    assert(next =~= seen.insert(order[i])) by {
        assert forall|x: Seq<char>| next.contains(x) <==> seen.insert(order[i]).contains(x) by {
            if order.take(i).contains(x) {
                let j = choose|j: int| 0 <= j < order.take(i).len() && order.take(i)[j] == x;
                assert(order.take(i + 1)[j] == x);
            }
            assert(order.take(i + 1)[i] == order[i]);
        }
    }
    assert(!seen.contains(order[i])) by {
        if order.take(i).contains(order[i]) {
            let j = choose|j: int| 0 <= j < order.take(i).len() && order.take(i)[j] == order[i];
            assert(order[j] == order[i]);
        }
    }
    if m[order[i]].contains_key(file) {
        assert(holders_among(m, next, file) =~= some.insert(order[i]));
    } else {
        assert(holders_among(m, next, file) =~= some);
    }
}

/// A pair stands in a row no more often than the row is long.
pub proof fn lemma_count_bound(s: Seq<(Seq<char>, Seq<char>)>, x: (Seq<char>, Seq<char>))
    ensures
        s.to_multiset().count(x) <= s.len(),
    decreases s.len(),
{
    s.to_multiset_ensures();
    if s.len() > 0 {
        let fewer = s.drop_last();
        lemma_count_bound(fewer, x);
        fewer.to_multiset_ensures();
        assert(s =~= fewer.push(s.last()));
        assert(s.to_multiset() =~= fewer.to_multiset().insert(s.last()));
    }
}

/// How often a pair stands in a row.
fn occurrences(pairs: &Vec<(String, String)>, pair: &(String, String)) -> (n: usize)
    ensures
        n == pair_texts(pairs@).to_multiset().count((pair.0@, pair.1@)),
{
    let ghost all = pair_texts(pairs@);
    let ghost wanted = (pair.0@, pair.1@);
    let mut n: usize = 0;
    let mut i: usize = 0;
    proof {
        all.take(0).to_multiset_ensures();
    }
    while i < pairs.len()
        invariant
            i <= pairs@.len(),
            all == pair_texts(pairs@),
            wanted == (pair.0@, pair.1@),
            n <= i,
            n == all.take(i as int).to_multiset().count(wanted),
        decreases pairs@.len() - i,
    {
        proof {
            let next = (pairs@[i as int].0@, pairs@[i as int].1@);
            assert(all.take(i + 1) =~= all.take(i as int).push(next));
            all.take(i as int).to_multiset_ensures();
            assert(all.take(i + 1).to_multiset() =~= all.take(i as int).to_multiset().insert(next));
        }
        if pairs[i].0.eq(&pair.0) && pairs[i].1.eq(&pair.1) {
            n += 1;
        }
        i += 1;
    }
    proof {
        assert(all.take(i as int) =~= all);
    }
    n
}

/// Whether some item has the file.
pub open spec fn is_listed(m: Map<Seq<char>, Map<Seq<char>, usize>>, file: Seq<char>) -> bool {
    exists|item: Seq<char>| #[trigger] m.contains_key(item) && m[item].contains_key(file)
}

/// The files of the items that have some.
pub open spec fn without_empty(m: Map<Seq<char>, Map<Seq<char>, usize>>) -> Map<
    Seq<char>,
    Map<Seq<char>, usize>,
> {
    Map::new(
        |item: Seq<char>| m.contains_key(item) && m[item] != Map::<Seq<char>, usize>::empty(),
        |item: Seq<char>| m[item],
    )
}

/// The files without some of them, which are taken from all items.
pub open spec fn without_all(
    m: Map<Seq<char>, Map<Seq<char>, usize>>,
    gone: Set<Seq<char>>,
) -> Map<Seq<char>, Map<Seq<char>, usize>> {
    m.map_values(|files: Map<Seq<char>, usize>| files.remove_keys(gone))
}

impl ItemFiles {
    /// No files for any item.
    pub fn new() -> (res: Self)
        ensures
            res@ == Map::<Seq<char>, Map<Seq<char>, usize>>::empty(),
    {
        let res = ItemFiles { map: StringMap::new() };
        assert(res@ =~= Map::<Seq<char>, Map<Seq<char>, usize>>::empty());
        res
    }

    /// Tells whether no item has an entry.
    pub fn is_empty(&self) -> (yes: bool)
        ensures
            yes == (self@ == Map::<Seq<char>, Map<Seq<char>, usize>>::empty()),
    {
        proof {
            if self@ == Map::<Seq<char>, Map<Seq<char>, usize>>::empty() {
                assert(self@.dom() =~= self.map@.dom());
                assert(self.map@ =~= Map::<Seq<char>, StringMap<usize>>::empty());
            } else {
                assert(self.map@ == Map::<Seq<char>, StringMap<usize>>::empty() ==> self@ =~= Map::<
                    Seq<char>,
                    Map<Seq<char>, usize>,
                >::empty());
            }
        }
        self.map.is_empty()
    }

    /// The files of an item.
    pub fn get(&self, item: &str) -> (files: Option<&StringMap<usize>>)
        ensures
            match files {
                Some(files) => self@.contains_key(item@) && self@[item@] == files@,
                None => !self@.contains_key(item@),
            },
    {
        self.map.get(item)
    }

    /// Gives an item files, in place of those that it may have had.
    pub fn insert(&mut self, item: String, files: StringMap<usize>)
        ensures
            final(self)@ == old(self)@.insert(item@, files@),
    {
        self.map.insert(item, files);
        assert(self@ =~= old(self)@.insert(item@, files@));
    }

    /// Takes an item and its files out.
    pub fn remove(&mut self, item: &str) -> (files: Option<StringMap<usize>>)
        ensures
            final(self)@ == old(self)@.remove(item@),
            match files {
                Some(files) => old(self)@.contains_key(item@) && old(self)@[item@] == files@,
                None => !old(self)@.contains_key(item@),
            },
    {
        let files = self.map.remove(item);
        assert(self@ =~= old(self)@.remove(item@));
        files
    }

    /// Counts a file that has been found for an item.
    pub fn add(&mut self, item: &String, file: &String)
        requires
            count_of(old(self)@, item@, file@) < usize::MAX,
        ensures
            final(self)@ == with_file(old(self)@, item@, file@),
    {
        let mut files = match self.remove(item.as_str()) {
            Some(files) => files,
            None => StringMap::new(),
        };
        let count: usize = match files.get(file.as_str()) {
            Some(count) => *count,
            None => 0,
        };
        files.insert(file.clone(), count + 1);
        self.insert(item.clone(), files);
        assert(self@ =~= with_file(old(self)@, item@, file@));
    }

    /// Takes a file from an item, and the item out if it has no files then.
    pub fn remove_file(&mut self, item: &String, file: &String)
        ensures
            final(self)@ == without_file(old(self)@, item@, file@),
    {
        if let Some(mut files) = self.remove(item.as_str()) {
            files.remove(file.as_str());
            if !files.is_empty() {
                self.insert(item.clone(), files);
            }
        }
        assert(self@ =~= without_file(old(self)@, item@, file@));
    }

    /// The items, each once.
    pub fn items(&self) -> (items: Vec<String>)
        ensures
            texts(items@).no_duplicates(),
            texts(items@).to_set() == self@.dom(),
    {
        let items = self.map.keys();
        assert(self@.dom() =~= self.map@.dom());
        items
    }
}

impl ItemFiles {
    /// For each file that some item has, the number of items that have it.
    pub fn file_counts(&self) -> (counts: StringMap<usize>)
        ensures
            forall|f: Seq<char>| #[trigger] counts@.contains_key(f) <==> is_listed(self@, f),
            forall|f: Seq<char>|
                holders(self@, f).finite() && #[trigger] count_in(counts@, f) == holders(
                    self@,
                    f,
                ).len(),
    {
        let ghost m = self@;
        let ghost order = self.map.order();
        let mut counts: StringMap<usize> = StringMap::new();
        let n = self.map.len();
        assert(order.take(0).to_set() =~= Set::empty());
        assert forall|f: Seq<char>| #[trigger] count_in(counts@, f) == holders_among(
            m,
            order.take(0).to_set(),
            f,
        ).len() by {
            assert(holders_among(m, order.take(0).to_set(), f) =~= Set::empty());
        }
        let mut i: usize = 0;
        while i < n
            invariant
                i <= n,
                n == order.len(),
                m == self@,
                order == self.map.order(),
                self.map.ordered(),
                forall|f: Seq<char>| #[trigger]
                    counts@.contains_key(f) ==> 0 < counts@[f],
                forall|f: Seq<char>| #[trigger]
                    count_in(counts@, f) == holders_among(m, order.take(i as int).to_set(), f).len(),
            decreases n - i,
        {
            let entry = self.map.entry_at(i);
            let files = entry.1;
            let ghost item = order[i as int];
            let ghost before = counts@;
            let count = files.len();
            let ghost names = files.order();
            assert(m[item] == files@);
            let mut j: usize = 0;
            while j < count
                invariant
                    i < n,
                    n == order.len(),
                    order == self.map.order(),
                    self.map.ordered(),
                    j <= count,
                    count == names.len(),
                    names == files.order(),
                    files.ordered(),
                    forall|f: Seq<char>| #[trigger]
                        counts@.contains_key(f) ==> 0 < counts@[f],
                    forall|f: Seq<char>| #[trigger]
                        count_in(before, f) == holders_among(
                            m,
                            order.take(i as int).to_set(),
                            f,
                        ).len(),
                    forall|f: Seq<char>| #[trigger]
                        count_in(counts@, f) == count_in(before, f) + (if names.take(
                            j as int,
                        ).contains(f) {
                            1int
                        } else {
                            0
                        }),
                decreases count - j,
            {
                let name = files.entry_at(j).0;
                let so_far: usize = match counts.get(name.as_str()) {
                    Some(so_far) => *so_far,
                    None => 0,
                };
                proof {
                    lemma_holders_push(m, order, i as int, name@);
                    assert(so_far == count_in(counts@, name@));
                    assert(names.take(j + 1) =~= names.take(j as int).push(name@));
                    assert(!names.take(j as int).contains(name@));
                    assert forall|f: Seq<char>| names.take(j + 1).contains(f) <==> names.take(
                        j as int,
                    ).contains(f) || f == name@ by {
                        if names.take(j as int).contains(f) {
                            let k = choose|k: int|
                                0 <= k < names.take(j as int).len() && names.take(j as int)[k] == f;
                            assert(names.take(j + 1)[k] == f);
                        }
                        assert(names.take(j + 1)[j as int] == name@);
                    }
                }
                let ghost mid = counts@;
                counts.insert(name.clone(), so_far + 1);
                proof {
                    assert forall|f: Seq<char>| #[trigger] count_in(counts@, f) == count_in(
                        before,
                        f,
                    ) + (if names.take(j + 1).contains(f) {
                        1int
                    } else {
                        0
                    }) by {
                        assert(count_in(mid, f) == count_in(before, f) + (if names.take(
                            j as int,
                        ).contains(f) {
                            1int
                        } else {
                            0
                        }));
                    }
                }
                j += 1;
            }
            proof {
                assert(names.take(count as int) =~= names);
                assert forall|f: Seq<char>| #[trigger] count_in(counts@, f) == holders_among(
                    m,
                    order.take(i + 1).to_set(),
                    f,
                ).len() by {
                    lemma_holders_push(m, order, i as int, f);
                    assert(names.contains(f) <==> names.to_set().contains(f));
                }
            }
            i += 1;
        }
        proof {
            assert(order.take(n as int) =~= order);
            assert(m.dom() =~= self.map@.dom());
            assert forall|f: Seq<char>|
                holders(m, f).finite() && #[trigger] count_in(counts@, f) == holders(
                    m,
                    f,
                ).len() by {
                vstd::set_lib::lemma_len_subset(holders(m, f), m.dom());
            }
            assert forall|f: Seq<char>| #[trigger] counts@.contains_key(f) <==> is_listed(
                m,
                f,
            ) by {
                assert(count_in(counts@, f) == holders(m, f).len());
                if counts@.contains_key(f) {
                    let item = holders(m, f).choose();
                    assert(holders(m, f).len() > 0);
                    assert(holders(m, f).contains(item));
                    assert(m.contains_key(item));
                }
                if is_listed(m, f) {
                    let item = choose|item: Seq<char>| #[trigger]
                        m.contains_key(item) && m[item].contains_key(f);
                    assert(holders(m, f).contains(item));
                    assert(holders(m, f).len() > 0);
                }
            }
        }
        counts
    }
}

/// Whether the rows are the files with their counts, each once.
pub open spec fn lists_counts(rows: Seq<(String, usize)>, m: Map<Seq<char>, usize>) -> bool {
    &&& forall|i: int|
        0 <= i < rows.len() ==> m.contains_key((#[trigger] rows[i]).0@) && m[rows[i].0@]
            == rows[i].1
    &&& forall|i: int, j: int|
        0 <= i < j < rows.len() ==> (#[trigger] rows[i]).0@ != (#[trigger] rows[j]).0@
    &&& forall|k: Seq<char>| #[trigger]
        m.contains_key(k) ==> exists|i: int| 0 <= i < rows.len() && (#[trigger] rows[i]).0@ == k
}

/// Whether the rows are the items with their files, each once.
pub open spec fn lists_files(
    rows: Seq<(String, Vec<(String, usize)>)>,
    m: Map<Seq<char>, Map<Seq<char>, usize>>,
) -> bool {
    &&& forall|i: int|
        0 <= i < rows.len() ==> m.contains_key((#[trigger] rows[i]).0@) && lists_counts(
            rows[i].1@,
            m[rows[i].0@],
        )
    &&& forall|i: int, j: int|
        0 <= i < j < rows.len() ==> (#[trigger] rows[i]).0@ != (#[trigger] rows[j]).0@
    &&& forall|k: Seq<char>| #[trigger]
        m.contains_key(k) ==> exists|i: int| 0 <= i < rows.len() && (#[trigger] rows[i]).0@ == k
}

/// The files of an item with their counts.
fn count_rows(files: &StringMap<usize>) -> (rows: Vec<(String, usize)>)
    ensures
        lists_counts(rows@, files@),
{
    let n = files.len();
    let ghost order = files.order();
    let mut rows: Vec<(String, usize)> = Vec::new();
    let mut i: usize = 0;
    while i < n
        invariant
            i <= n,
            n == order.len(),
            order == files.order(),
            rows@.len() == i,
            forall|k: int|
                0 <= k < i ==> (#[trigger] rows@[k]).0@ == order[k] && files@.contains_key(order[k])
                    && files@[order[k]] == rows@[k].1,
        decreases n - i,
    {
        let (name, count) = files.entry_at(i);
        let ghost before = rows@;
        rows.push((name.clone(), *count));
        assert(forall|k: int| 0 <= k < i ==> rows@[k] == before[k]);
        assert(rows@[i as int].0@ == order[i as int]);
        i += 1;
    }
    proof {
        assert forall|k: Seq<char>| #[trigger] files@.contains_key(k) implies exists|i: int|
            0 <= i < rows@.len() && (#[trigger] rows@[i]).0@ == k by {
            assert(order.to_set().contains(k));
            let i = choose|i: int| 0 <= i < order.len() && order[i] == k;
            assert(rows@[i].0@ == k);
        }
    }
    rows
}

impl ItemFiles {
    /// The items with their files and counts, as plain rows.
    pub fn rows(&self) -> (rows: Vec<(String, Vec<(String, usize)>)>)
        ensures
            lists_files(rows@, self@),
    {
        let n = self.map.len();
        let ghost order = self.map.order();
        let mut rows: Vec<(String, Vec<(String, usize)>)> = Vec::new();
        let mut i: usize = 0;
        while i < n
            invariant
                i <= n,
                n == order.len(),
                order == self.map.order(),
                rows@.len() == i,
                forall|k: int|
                    0 <= k < i ==> (#[trigger] rows@[k]).0@ == order[k] && self@.contains_key(
                        order[k],
                    ) && lists_counts(rows@[k].1@, self@[order[k]]),
            decreases n - i,
        {
            let (item, files) = self.map.entry_at(i);
            assert(self@.contains_key(item@) && self@[item@] == files@);
            rows.push((item.clone(), count_rows(files)));
            i += 1;
        }
        proof {
            assert forall|k: Seq<char>| #[trigger] self@.contains_key(k) implies exists|i: int|
                0 <= i < rows@.len() && (#[trigger] rows@[i]).0@ == k by {
                assert(order.to_set().contains(k));
                let i = choose|i: int| 0 <= i < order.len() && order[i] == k;
                assert(rows@[i].0@ == k);
            }
        }
        rows
    }

    /// Tells whether every count can grow by as much as the two rows of pairs
    /// of item and file make it.
    pub fn has_room(&self, found: &Vec<(String, String)>, more: &Vec<(String, String)>) -> (yes:
        bool)
        ensures
            yes == room_for(self@, pair_texts(found@) + pair_texts(more@)),
    {
        let ghost first = pair_texts(found@);
        let ghost second = pair_texts(more@);
        let ghost all = first + second;
        proof {
            all.to_multiset_ensures();
            vstd::seq_lib::lemma_multiset_commutative(first, second);
        }
        let mut i: usize = 0;
        while i < found.len()
            invariant
                i <= found@.len(),
                first == pair_texts(found@),
                second == pair_texts(more@),
                all == first + second,
                all.to_multiset() == first.to_multiset().add(second.to_multiset()),
                forall|k: int|
                    0 <= k < i ==> count_of(self@, (#[trigger] all[k]).0, all[k].1)
                        + all.to_multiset().count(all[k]) <= usize::MAX,
            decreases found@.len() - i,
        {
            proof {
                assert(all[i as int] == (found@[i as int].0@, found@[i as int].1@));
                assert(all[i as int] == (all[i as int].0, all[i as int].1));
            }
            if !self.has_room_for(&found[i], found, more) {
                return false;
            }
            i += 1;
        }
        let mut j: usize = 0;
        while j < more.len()
            invariant
                j <= more@.len(),
                first == pair_texts(found@),
                second == pair_texts(more@),
                all == first + second,
                all.to_multiset() == first.to_multiset().add(second.to_multiset()),
                forall|k: int|
                    0 <= k < first.len() + j ==> count_of(self@, (#[trigger] all[k]).0, all[k].1)
                        + all.to_multiset().count(all[k]) <= usize::MAX,
            decreases more@.len() - j,
        {
            proof {
                let k = first.len() + j;
                assert(all[k] == (more@[j as int].0@, more@[j as int].1@));
            }
            if !self.has_room_for(&more[j], found, more) {
                return false;
            }
            j += 1;
        }
        proof {
            assert forall|item: Seq<char>, file: Seq<char>| #[trigger] count_of(self@, item, file)
                + all.to_multiset().count((item, file)) <= usize::MAX by {
                if all.contains((item, file)) {
                    let k = choose|k: int| 0 <= k < all.len() && all[k] == (item, file);
                    assert(count_of(self@, all[k].0, all[k].1) + all.to_multiset().count(all[k])
                        <= usize::MAX);
                } else {
                    assert(all.to_multiset().count((item, file)) == 0);
                }
            }
        }
        true
    }

    /// Tells whether the count of one file can grow by as much as the two rows
    /// make it. Where it is far from the largest count, nothing is counted.
    fn has_room_for(
        &self,
        pair: &(String, String),
        found: &Vec<(String, String)>,
        more: &Vec<(String, String)>,
    ) -> (yes: bool)
        ensures
            yes == (count_of(self@, pair.0@, pair.1@) + pair_texts(found@).to_multiset().count(
                (pair.0@, pair.1@),
            ) + pair_texts(more@).to_multiset().count((pair.0@, pair.1@)) <= usize::MAX),
    {
        let count: usize = match self.get(pair.0.as_str()) {
            Some(files) => match files.get(pair.1.as_str()) {
                Some(count) => *count,
                None => 0,
            },
            None => 0,
        };
        proof {
            lemma_count_bound(pair_texts(found@), (pair.0@, pair.1@));
            lemma_count_bound(pair_texts(more@), (pair.0@, pair.1@));
        }
        if count <= usize::MAX / 2 && found.len() <= usize::MAX / 4 && more.len() <= usize::MAX
            / 4 {
            return true;
        }
        let a = occurrences(found, pair);
        let b = occurrences(more, pair);
        a <= usize::MAX - count && b <= usize::MAX - count - a
    }

    /// Takes files from all items.
    pub fn remove_files(&mut self, gone: &Vec<String>)
        ensures
            final(self)@ == without_all(old(self)@, texts(gone@).to_set()),
    {
        let ghost names = texts(gone@);
        let mut map: StringMap<StringMap<usize>> = StringMap::new();
        std::mem::swap(&mut self.map, &mut map);
        let ghost before = map;
        let entries = map.into_entries();
        let ghost order = before.order();
        for entry in it: entries
            invariant
                it.seq() == entries@,
                order == before.order(),
                before.ordered(),
                names == texts(gone@),
                entries@.len() == order.len(),
                forall|i: int|
                    0 <= i < entries@.len() ==> {
                        &&& (#[trigger] entries@[i]).0@ == order[i]
                        &&& before@.contains_key(entries@[i].0@)
                        &&& before@[entries@[i].0@] == entries@[i].1
                    },
                self.map@.dom() == order.take(it.index() as int).to_set(),
                forall|k: Seq<char>| #[trigger]
                    self.map@.contains_key(k) ==> self.map@[k]@ == before@[k]@.remove_keys(
                        names.to_set(),
                    ),
        {
            let (item, files) = entry;
            let mut files = files;
            let ghost all = files@;
            let mut j: usize = 0;
            assert(all =~= all.remove_keys(names.take(0).to_set()));
            while j < gone.len()
                invariant
                    j <= gone@.len(),
                    names == texts(gone@),
                    files@ == all.remove_keys(names.take(j as int).to_set()),
                decreases gone@.len() - j,
            {
                files.remove(gone[j].as_str());
                proof {
                    assert(names.take(j + 1) =~= names.take(j as int).push(gone@[j as int]@));
                    assert forall|x: Seq<char>| names.take(j + 1).contains(x) <==> names.take(
                        j as int,
                    ).contains(x) || x == gone@[j as int]@ by {
                        if names.take(j as int).contains(x) {
                            let k = choose|k: int|
                                0 <= k < names.take(j as int).len() && names.take(j as int)[k] == x;
                            assert(names.take(j + 1)[k] == x);
                        }
                        assert(names.take(j + 1)[j as int] == gone@[j as int]@);
                    }
                    assert(files@ =~= all.remove_keys(names.take(j + 1).to_set()));
                }
                j += 1;
            }
            proof {
                assert(names.take(j as int) =~= names);
                let i = it.index() as int;
                assert(order.take(i + 1) =~= order.take(i).push(order[i]));
                assert forall|x: Seq<char>| order.take(i + 1).contains(x) <==> order.take(
                    i,
                ).contains(x) || x == order[i] by {
                    if order.take(i).contains(x) {
                        let k = choose|k: int|
                            0 <= k < order.take(i).len() && order.take(i)[k] == x;
                        assert(order.take(i + 1)[k] == x);
                    }
                    assert(order.take(i + 1)[i] == order[i]);
                }
            }
            self.map.insert(item, files);
            proof {
                assert(self.map@.dom() =~= order.take(it.index() + 1).to_set());
            }
        }
        proof {
            assert(order.take(order.len() as int) =~= order);
            assert(self@ =~= without_all(old(self)@, names.to_set()));
        }
    }

    /// Takes the items out that have no files.
    pub fn drop_empty(&mut self)
        ensures
            final(self)@ == without_empty(old(self)@),
    {
        let mut map: StringMap<StringMap<usize>> = StringMap::new();
        std::mem::swap(&mut self.map, &mut map);
        let ghost before = map;
        let entries = map.into_entries();
        let ghost order = before.order();
        for entry in it: entries
            invariant
                it.seq() == entries@,
                order == before.order(),
                before.ordered(),
                entries@.len() == order.len(),
                forall|i: int|
                    0 <= i < entries@.len() ==> {
                        &&& (#[trigger] entries@[i]).0@ == order[i]
                        &&& before@.contains_key(entries@[i].0@)
                        &&& before@[entries@[i].0@] == entries@[i].1
                    },
                forall|k: Seq<char>| #[trigger]
                    self.map@.contains_key(k) <==> (exists|i: int|
                        0 <= i < it.index() && #[trigger] order[i] == k) && before@[k]@ != Map::<
                        Seq<char>,
                        usize,
                    >::empty(),
                forall|k: Seq<char>| #[trigger]
                    self.map@.contains_key(k) ==> self.map@[k] == before@[k],
        {
            proof {
                assert(order[it.index() as int] == entry.0@);
            }
            let (item, files) = entry;
            if !files.is_empty() {
                self.map.insert(item, files);
            }
        }
        proof {
            assert forall|k: Seq<char>| self@.contains_key(k) <==> without_empty(
                old(self)@,
            ).contains_key(k) by {
                assert(before@.contains_key(k) <==> order.to_set().contains(k));
                if order.contains(k) {
                    let i = choose|i: int| 0 <= i < order.len() && order[i] == k;
                    assert(order[i] == k);
                }
            }
            assert(self@ =~= without_empty(old(self)@));
        }
    }
}

} // verus!

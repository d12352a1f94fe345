//! Finding files for Wikidata items that could use an image.
use crate::answer::pair_texts;
use crate::filename::{is_valid, normalize, normalized, valid_ascii, valid_filename};
use crate::files::{
    count_in, count_of, holders, is_listed, lemma_room_after, room_for, with_file, with_files,
    without_all, without_empty, without_file, ItemFiles,
};
use crate::links::{as_map, map_of, text_map};
use crate::pagelist::{main_names, optional_text, PageList, WIKIDATA_WIKI};
use crate::pattern::filetype;
use crate::phase::{Phase, PhaseView};
use crate::sort::{sort_dedup, sorted};
use crate::string_map::StringMap;
use crate::text::{chars_of, pieces, split_on, text_of, texts, trim, trimmed};
use vstd::hash_set::StringHashSet;
use vstd::prelude::*;
use vstd::string::*;
use vstd::utf8::is_ascii_chars;

verus! {

broadcast use {vstd::seq_lib::group_seq_properties, crate::text::lemma_texts_push};

/// A file that this many items of a result have is taken to be no picture of
/// any of them.
pub const MAX_FILE_COUNT_IN_RESULT_SET: usize = 5;

/// The parameters that a user has set.
pub struct FormParameters {
    pub params: StringMap<String>,
}

impl View for FormParameters {
    type V = Map<Seq<char>, Seq<char>>;

    open spec fn view(&self) -> Map<Seq<char>, Seq<char>> {
        text_map(self.params@)
    }
}

impl FormParameters {
    /// Parameters from pairs of name and value. Where a name occurs several
    /// times, its last value counts.
    pub fn new(pairs: &Vec<(String, String)>) -> (res: Self)
        ensures
            res@ == as_map(pair_texts(pairs@)),
    {
        FormParameters { params: map_of(pairs) }
    }
}

/// Whether a parameter is set: it has a value that is not just white space.
pub open spec fn flag(params: Map<Seq<char>, Seq<char>>, name: Seq<char>) -> bool {
    params.contains_key(name) && trimmed(params[name]).len() > 0
}

/// A search for files for items.
pub struct WDfist {
    pub item2files: ItemFiles,
    pub items: Vec<String>,
    /// Normalized, valid file names.
    pub files2ignore: StringHashSet,
    pub form_parameters: FormParameters,
    pub wdf_allow_svg: bool,
    pub wdf_only_jpeg: bool,
    /// How far the search has come.
    pub phase: Phase,
}

/// What a search knows.
#[verifier::ext_equal]
pub struct FistView {
    pub item2files: Map<Seq<char>, Map<Seq<char>, usize>>,
    pub items: Seq<Seq<char>>,
    pub ignored: Set<Seq<char>>,
    pub params: Map<Seq<char>, Seq<char>>,
    pub allow_svg: bool,
    pub only_jpeg: bool,
    pub phase: PhaseView,
}

impl View for WDfist {
    type V = FistView;

    open spec fn view(&self) -> FistView {
        FistView {
            item2files: self.item2files@,
            items: texts(self.items@),
            ignored: self.files2ignore@,
            params: self.form_parameters@,
            allow_svg: self.wdf_allow_svg,
            only_jpeg: self.wdf_only_jpeg,
            phase: self.phase@,
        }
    }
}

impl FistView {
    /// Whether a file is good for an item, by its normalized name.
    pub open spec fn valid(self, name: Seq<char>) -> bool {
        valid_filename(self.ignored, self.allow_svg, self.only_jpeg, name)
    }

    /// The search after files have been found.
    pub open spec fn with_found(self, found: Seq<(Seq<char>, Seq<char>)>) -> FistView {
        FistView {
            item2files: with_files(
                self.item2files,
                found,
                self.ignored,
                self.allow_svg,
                self.only_jpeg,
            ),
            ..self
        }
    }
}

/// A line of a list without the spaces and bullets that it starts with.
pub open spec fn without_bullets(line: Seq<char>) -> Seq<char>
    decreases line.len(),
{
    if line.len() > 0 && (line[0] == ' ' || line[0] == '*') {
        without_bullets(line.drop_first())
    } else {
        line
    }
}

/// The files to ignore, with those of the given names that are valid.
pub open spec fn seeded(
    ignored: Set<Seq<char>>,
    allow_svg: bool,
    only_jpeg: bool,
    names: Seq<Seq<char>>,
) -> Set<Seq<char>> {
    ignored.union(
        Set::new(
            |name: Seq<char>|
                valid_filename(Set::empty(), allow_svg, only_jpeg, name) && exists|i: int|
                    0 <= i < names.len() && normalized(#[trigger] names[i]) == name,
        ),
    )
}

/// The names in a list of files, one on each line.
pub open spec fn listed_names(wikitext: Seq<char>) -> Seq<Seq<char>> {
    pieces(wikitext, '\n').map_values(|line: Seq<char>| without_bullets(line))
}

/// The texts among optional ones.
pub open spec fn present(rows: Seq<Option<String>>) -> Seq<Seq<char>>
    decreases rows.len(),
{
    if rows.len() == 0 {
        Seq::empty()
    } else {
        match rows.last() {
            Some(s) => present(rows.drop_last()).push(s@),
            None => present(rows.drop_last()),
        }
    }
}

/// Drops the spaces and bullets that a line starts with.
fn strip_bullets(line: &str) -> (res: String)
    ensures
        res@ == without_bullets(line@),
{
    let chars = chars_of(line);
    let mut start: usize = 0;
    while start < chars.len() && (chars[start] == ' ' || chars[start] == '*')
        invariant
            start <= chars@.len(),
            without_bullets(chars@) == without_bullets(chars@.skip(start as int)),
        decreases chars@.len() - start,
    {
        proof {
            assert(chars@.skip(start as int).drop_first() =~= chars@.skip(start + 1));
        }
        start += 1;
    }
    text_of(&chars, start, chars.len())
}

/// Whether a search is the one for the items of a list of pages of Wikidata, or
/// there is none, since the list is another wiki's. A search without a list has
/// no items.
pub open spec fn starts_from(
    fist: Option<FistView>,
    params: Map<Seq<char>, Seq<char>>,
    result: Option<PageList>,
) -> bool {
    match fist {
        Some(fist) => {
            &&& result matches Some(list) ==> optional_text(list.wiki) == Some(WIKIDATA_WIKI@)
            &&& fist == (FistView {
                item2files: Map::empty(),
                items: fist.items,
                ignored: Set::empty(),
                params,
                allow_svg: false,
                only_jpeg: false,
                phase: PhaseView::Idle,
            })
            &&& sorted(fist.items)
            &&& fist.items.no_duplicates()
            &&& fist.items.to_set() == (match result {
                Some(list) => main_names(list.entries@),
                None => Set::empty(),
            })
        },
        None => result matches Some(list) && optional_text(list.wiki) != Some(WIKIDATA_WIKI@),
    }
}

impl WDfist {
    /// A search for files for the items of a list of pages of Wikidata; there
    /// is none for another wiki's list.
    pub fn new(form_parameters: FormParameters, result: &Option<PageList>) -> (res: Option<Self>)
        ensures
            match res {
                Some(fist) => starts_from(Some(fist@), form_parameters@, *result),
                None => starts_from(None, form_parameters@, *result),
            },
    {
        let items: Vec<String> = match result {
            Some(pagelist) => {
                if !pagelist.is_wikidata() {
                    return None;
                }
                pagelist.entries.main_names()
            },
            None => Vec::new(),
        };
        let items = sort_dedup(items);
        let fist = WDfist {
            item2files: ItemFiles::new(),
            items,
            files2ignore: StringHashSet::new(),
            form_parameters,
            wdf_allow_svg: false,
            wdf_only_jpeg: false,
            phase: Phase::Idle,
        };
        proof {
            assert(fist@.item2files =~= Map::empty());
            assert(fist@.ignored =~= Set::empty());
            if result is None {
                assert(fist@.items.to_set() =~= Set::empty());
            }
        }
        Some(fist)
    }

    /// Tells whether a parameter is set to something.
    pub fn bool_param(&self, key: &str) -> (yes: bool)
        ensures
            yes == flag(self@.params, key@),
    {
        match self.form_parameters.params.get(key) {
            Some(v) => !trim(v.as_str()).as_str().is_empty(),
            None => false,
        }
    }

    /// The form of a file name in which it is compared.
    pub fn normalize_filename(&self, filename: &String) -> (res: String)
        ensures
            res@ == normalized(filename@),
    {
        normalize(filename.as_str())
    }

    /// Tells whether a file is good for an item, by its normalized name.
    pub fn is_valid_filename(&self, filename: &String) -> (yes: bool)
        ensures
            yes == self@.valid(filename@),
            filetype(filename@) matches Some(t) ==> is_ascii_chars(t) ==> yes == valid_ascii(
                self@.ignored,
                self@.allow_svg,
                self@.only_jpeg,
                filename@,
                t,
            ),
    {
        is_valid(&self.files2ignore, self.wdf_allow_svg, self.wdf_only_jpeg, filename)
    }

    /// Counts a file that has been found for an item, if it is valid.
    pub fn add_file_to_item(&mut self, item: &String, filename: &String)
        requires
            count_of(old(self)@.item2files, item@, filename@) < usize::MAX,
        ensures
            final(self)@ == (FistView {
                item2files: if old(self)@.valid(filename@) {
                    with_file(old(self)@.item2files, item@, filename@)
                } else {
                    old(self)@.item2files
                },
                ..old(self)@
            }),
            final(self)@ == old(self)@.with_found(seq![(item@, filename@)]),
    {
        proof {
            let one = seq![(item@, filename@)];
            assert(one.drop_last() =~= Seq::empty());
            assert(one.last() == (item@, filename@));
            reveal_with_fuel(with_files, 2);
        }
        if !self.is_valid_filename(filename) {
            return;
        }
        self.item2files.add(item, filename);
    }
}

/// The files after those of the rows have been taken from their items.
pub open spec fn without_pairs(
    m: Map<Seq<char>, Map<Seq<char>, usize>>,
    rows: Seq<(Seq<char>, Seq<char>)>,
) -> Map<Seq<char>, Map<Seq<char>, usize>>
    decreases rows.len(),
{
    if rows.len() == 0 {
        m
    } else {
        without_file(
            without_pairs(m, rows.drop_last()),
            rows.last().0,
            normalized(rows.last().1),
        )
    }
}

/// The readable ones among rows of two texts.
pub open spec fn present_pairs(rows: Seq<Option<(String, String)>>) -> Seq<(Seq<char>, Seq<char>)>
    decreases rows.len(),
{
    if rows.len() == 0 {
        Seq::empty()
    } else {
        match rows.last() {
            Some(p) => present_pairs(rows.drop_last()).push((p.0@, p.1@)),
            None => present_pairs(rows.drop_last()),
        }
    }
}

/// The readable rows of the batches that were not refused.
pub open spec fn rows_of(batches: Seq<Result<Vec<Option<(String, String)>>, String>>) -> Seq<
    (Seq<char>, Seq<char>),
>
    decreases batches.len(),
{
    if batches.len() == 0 {
        Seq::empty()
    } else {
        match batches.last() {
            Ok(rows) => rows_of(batches.drop_last()) + present_pairs(rows@),
            Err(_) => rows_of(batches.drop_last()),
        }
    }
}

/// Why a batch was refused: the last reason.
pub open spec fn last_refusal(
    batches: Seq<Result<Vec<Option<(String, String)>>, String>>,
) -> Option<Seq<char>>
    decreases batches.len(),
{
    if batches.len() == 0 {
        None
    } else {
        match batches.last() {
            Ok(_) => last_refusal(batches.drop_last()),
            Err(e) => Some(e@),
        }
    }
}

/// The items with files to ignore for them. Where there are no items to search
/// for, none are heeded.
pub open spec fn rows_to_ignore(
    items: Seq<Seq<char>>,
    batches: Seq<Result<Vec<Option<(String, String)>>, String>>,
) -> Seq<(Seq<char>, Seq<char>)> {
    if items.len() == 0 {
        Seq::empty()
    } else {
        rows_of(batches)
    }
}

/// Why files to ignore are not fully known: the last reason, if there are items
/// to search for.
pub open spec fn refusal(
    items: Seq<Seq<char>>,
    batches: Seq<Result<Vec<Option<(String, String)>>, String>>,
) -> Option<Seq<char>> {
    if items.len() == 0 {
        None
    } else {
        last_refusal(batches)
    }
}

/// The files that are taken from all items: those that items use, if such
/// files are not wanted, and those that too many items of the result have, if
/// there is a limit.
pub open spec fn unwanted(
    m: Map<Seq<char>, Map<Seq<char>, usize>>,
    params: Map<Seq<char>, Seq<char>>,
    used: Seq<Seq<char>>,
) -> Set<Seq<char>> {
    Set::new(
        |file: Seq<char>|
            {
                ||| flag(params, "wdf_only_files_not_on_wd"@) && used.contains(file)
                ||| flag(params, "wdf_max_five_results"@) && is_listed(m, file) && holders(
                    m,
                    file,
                ).len() >= MAX_FILE_COUNT_IN_RESULT_SET
            },
    )
}

/// The files without the unwanted ones, and without items that have none.
/// Where no item has a file, everything stays.
pub open spec fn five_or_used(
    m: Map<Seq<char>, Map<Seq<char>, usize>>,
    params: Map<Seq<char>, Seq<char>>,
    used: Seq<Seq<char>>,
) -> Map<Seq<char>, Map<Seq<char>, usize>> {
    if exists|file: Seq<char>| is_listed(m, file) {
        without_empty(without_all(m, unwanted(m, params, used)))
    } else {
        m
    }
}

impl WDfist {
    /// Ignores those of the files that are valid.
    fn seed(&mut self, names: &Vec<String>)
        ensures
            final(self)@ == (FistView {
                ignored: seeded(
                    old(self)@.ignored,
                    old(self)@.allow_svg,
                    old(self)@.only_jpeg,
                    texts(names@),
                ),
                ..old(self)@
            }),
    {
        let ghost all = texts(names@);
        let ghost before = self@;
        let mut i: usize = 0;
        assert(self@.ignored =~= seeded(
            before.ignored,
            before.allow_svg,
            before.only_jpeg,
            all.take(0),
        ));
        while i < names.len()
            invariant
                i <= names@.len(),
                all == texts(names@),
                self@ == (FistView {
                    ignored: seeded(
                        before.ignored,
                        before.allow_svg,
                        before.only_jpeg,
                        all.take(i as int),
                    ),
                    ..before
                }),
            decreases names@.len() - i,
        {
            let filename = self.normalize_filename(&names[i]);
            let ghost so_far = self@.ignored;
            if self.is_valid_filename(&filename) {
                self.files2ignore.insert(filename);
            }
            proof {
                let then = all.take(i + 1);
                assert(then[i as int] == names@[i as int]@);
                assert forall|k: int| 0 <= k < i implies then[k] == all.take(i as int)[k] by {}
                let goal = seeded(before.ignored, before.allow_svg, before.only_jpeg, then);
                assert forall|name: Seq<char>| self@.ignored.contains(name) <==> goal.contains(
                    name,
                ) by {
                    if so_far.contains(name) && !before.ignored.contains(name) {
                        let k = choose|k: int|
                            0 <= k < i && normalized(#[trigger] all.take(i as int)[k]) == name;
                        assert(normalized(then[k]) == name);
                    }
                    if goal.contains(name) && !before.ignored.contains(name) {
                        let k = choose|k: int|
                            0 <= k < i + 1 && normalized(#[trigger] then[k]) == name;
                        if k < i {
                            assert(normalized(all.take(i as int)[k]) == name);
                            assert(so_far.contains(name));
                        }
                    }
                }
                assert(self@.ignored =~= goal);
            }
            i += 1;
        }
        proof {
            assert(all.take(i as int) =~= all);
        }
    }

    /// Ignores the valid files that a wiki page lists, one on each line.
    pub fn seed_ignore_files_from_wiki_page(&mut self, wikitext: &str)
        ensures
            final(self)@ == (FistView {
                ignored: seeded(
                    old(self)@.ignored,
                    old(self)@.allow_svg,
                    old(self)@.only_jpeg,
                    listed_names(wikitext@),
                ),
                ..old(self)@
            }),
    {
        let lines = split_on(wikitext, '\n');
        let ghost all = texts(lines@);
        let mut names: Vec<String> = Vec::new();
        let mut i: usize = 0;
        while i < lines.len()
            invariant
                i <= lines@.len(),
                all == texts(lines@),
                texts(names@) == all.take(i as int).map_values(
                    |line: Seq<char>| without_bullets(line),
                ),
            decreases lines@.len() - i,
        {
            names.push(strip_bullets(lines[i].as_str()));
            proof {
                assert(all[i as int] == lines@[i as int]@);
                assert(texts(names@) =~= all.take(i + 1).map_values(
                    |line: Seq<char>| without_bullets(line),
                ));
            }
            i += 1;
        }
        proof {
            assert(all.take(i as int) =~= all);
        }
        self.seed(&names);
    }

    /// Ignores the valid files that the database lists.
    pub fn seed_ignore_files_from_ignore_database(&mut self, rows: &Vec<Option<String>>)
        ensures
            final(self)@ == (FistView {
                ignored: seeded(
                    old(self)@.ignored,
                    old(self)@.allow_svg,
                    old(self)@.only_jpeg,
                    present(rows@),
                ),
                ..old(self)@
            }),
    {
        let mut names: Vec<String> = Vec::new();
        let mut i: usize = 0;
        while i < rows.len()
            invariant
                i <= rows@.len(),
                texts(names@) == present(rows@.take(i as int)),
            decreases rows@.len() - i,
        {
            proof {
                assert(rows@.take(i + 1).drop_last() =~= rows@.take(i as int));
            }
            if let Some(name) = &rows[i] {
                names.push(name.clone());
            }
            i += 1;
        }
        proof {
            assert(rows@.take(i as int) =~= rows@);
        }
        self.seed(&names);
    }

    /// Goes on with the items that qualify.
    pub fn filter_items(&mut self, rows: Vec<String>)
        ensures
            final(self)@ == (FistView { items: texts(rows@), ..old(self)@ }),
    {
        self.items = rows;
    }

    /// Counts the files that have been found, each for its item, if they are
    /// valid.
    pub fn add_files(&mut self, found: &Vec<(String, String)>)
        requires
            room_for(old(self)@.item2files, pair_texts(found@)),
        ensures
            final(self)@ == old(self)@.with_found(pair_texts(found@)),
    {
        let ghost all = pair_texts(found@);
        let ghost before = self@;
        let mut i: usize = 0;
        assert(all.skip(0) =~= all);
        while i < found.len()
            invariant
                i <= found@.len(),
                all == pair_texts(found@),
                room_for(self@.item2files, all.skip(i as int)),
                self@ == before.with_found(all.take(i as int)),
            decreases found@.len() - i,
        {
            let (item, file) = (&found[i].0, &found[i].1);
            proof {
                assert(all.take(i + 1).drop_last() =~= all.take(i as int));
                assert(all.take(i + 1).last() == (item@, file@));
                assert(all.skip(i as int)[0] == (item@, file@));
                lemma_room_after(self@.item2files, all.skip(i as int));
                assert(all.skip(i as int).skip(1) =~= all.skip(i + 1));
            }
            self.add_file_to_item(item, file);
            i += 1;
        }
        proof {
            assert(all.take(i as int) =~= all);
        }
    }

    /// Takes files from items for which they are to be ignored. Where a batch
    /// was refused, the others still count.
    pub fn filter_files_from_ignore_database(
        &mut self,
        batches: &Vec<Result<Vec<Option<(String, String)>>, String>>,
    ) -> (res: Result<(), String>)
        ensures
            final(self)@ == (FistView {
                item2files: without_pairs(
                    old(self)@.item2files,
                    rows_to_ignore(old(self)@.items, batches@),
                ),
                ..old(self)@
            }),
            match res {
                Ok(_) => refusal(old(self)@.items, batches@) is None,
                Err(e) => refusal(old(self)@.items, batches@) is Some && e@
                    == "wdfist::filter_files_from_ignore_database: "@ + refusal(
                    old(self)@.items,
                    batches@,
                ).unwrap(),
            },
    {
        if self.items.is_empty() {
            return Ok(());
        }
        let ghost before = self@;
        let mut error: Option<String> = None;
        let mut i: usize = 0;
        while i < batches.len()
            invariant
                i <= batches@.len(),
                self@ == (FistView {
                    item2files: without_pairs(before.item2files, rows_of(batches@.take(i as int))),
                    ..before
                }),
                optional_text(error) == last_refusal(batches@.take(i as int)),
            decreases batches@.len() - i,
        {
            proof {
                assert(batches@.take(i + 1).drop_last() =~= batches@.take(i as int));
            }
            match &batches[i] {
                Ok(rows) => {
                    let ghost earlier = rows_of(batches@.take(i as int));
                    let mut j: usize = 0;
                    assert(earlier + present_pairs(rows@.take(0)) =~= earlier);
                    while j < rows.len()
                        invariant
                            j <= rows@.len(),
                            self@ == (FistView {
                                item2files: without_pairs(
                                    before.item2files,
                                    earlier + present_pairs(rows@.take(j as int)),
                                ),
                                ..before
                            }),
                        decreases rows@.len() - j,
                    {
                        let ghost so_far = earlier + present_pairs(rows@.take(j as int));
                        proof {
                            assert(rows@.take(j + 1).drop_last() =~= rows@.take(j as int));
                        }
                        if let Some(row) = &rows[j] {
                            let filename = self.normalize_filename(&row.1);
                            self.item2files.remove_file(&row.0, &filename);
                            proof {
                                let then = earlier + present_pairs(rows@.take(j + 1));
                                assert(then =~= so_far.push((row.0@, row.1@)));
                                assert(then.drop_last() =~= so_far);
                            }
                        }
                        j += 1;
                    }
                    proof {
                        assert(rows@.take(j as int) =~= rows@);
                    }
                },
                Err(e) => {
                    error = Some(e.clone());
                },
            }
            i += 1;
        }
        proof {
            assert(batches@.take(i as int) =~= batches@);
        }
        match error {
            Some(e) => {
                let mut message = "wdfist::filter_files_from_ignore_database: ".to_string();
                message.append(e.as_str());
                Err(message)
            },
            None => Ok(()),
        }
    }

    /// The files to ask about: those that some item has, if it matters whether
    /// items use them.
    pub fn files_to_check(&self) -> (res: Option<Vec<String>>)
        ensures
            match res {
                Some(files) => {
                    &&& flag(self@.params, "wdf_only_files_not_on_wd"@)
                    &&& exists|file: Seq<char>| is_listed(self@.item2files, file)
                    &&& texts(files@).no_duplicates()
                    &&& forall|file: Seq<char>| #[trigger]
                        texts(files@).contains(file) <==> is_listed(self@.item2files, file)
                },
                None => !flag(self@.params, "wdf_only_files_not_on_wd"@) || !exists|
                    file: Seq<char>,
                | is_listed(self@.item2files, file),
            },
    {
        if !self.bool_param("wdf_only_files_not_on_wd") {
            return None;
        }
        let counts = self.item2files.file_counts();
        let files = counts.keys();
        proof {
            assert forall|file: Seq<char>| #[trigger] texts(files@).contains(file) <==> is_listed(
                self@.item2files,
                file,
            ) by {
                assert(counts.order().to_set().contains(file) <==> counts@.dom().contains(file));
                assert(counts@.contains_key(file) <==> is_listed(self@.item2files, file));
            }
        }
        if files.len() == 0 {
            proof {
                assert forall|file: Seq<char>| !is_listed(self@.item2files, file) by {
                    assert(!texts(files@).contains(file));
                }
            }
            None
        } else {
            proof {
                assert(texts(files@).contains(texts(files@)[0]));
            }
            Some(files)
        }
    }

    /// Takes files from all items: those that items use (which the rows tell),
    /// if such files are not wanted, and those that too many items of the
    /// result have, if there is a limit. Then items without files go.
    pub fn filter_files_five_or_is_used(&mut self, used: Vec<String>)
        ensures
            final(self)@ == (FistView {
                item2files: five_or_used(
                    old(self)@.item2files,
                    old(self)@.params,
                    texts(used@),
                ),
                ..old(self)@
            }),
    {
        let ghost m = self@.item2files;
        let ghost params = self@.params;
        let counts = self.item2files.file_counts();
        if counts.is_empty() {
            proof {
                assert forall|file: Seq<char>| !is_listed(m, file) by {
                    assert(!counts@.contains_key(file));
                }
            }
            return;
        }
        let n = counts.len();
        let ghost order = counts.order();
        proof {
            if order.len() == 0 {
                assert(order.to_set() =~= Set::empty());
                assert(counts@ =~= Map::<Seq<char>, usize>::empty());
            }
            assert(order.to_set().contains(order[0]));
            assert(counts@.contains_key(order[0]));
            assert(is_listed(m, order[0]));
        }
        let mut gone: Vec<String> = Vec::new();
        if self.bool_param("wdf_only_files_not_on_wd") {
            gone = used;
        }
        let ghost first = texts(gone@);
        let limited = self.bool_param("wdf_max_five_results");
        let mut i: usize = 0;
        while limited && i < n
            invariant
                i <= n,
                !limited ==> i == 0,
                n == order.len(),
                order == counts.order(),
                counts.ordered(),
                forall|f: Seq<char>| #[trigger]
                    texts(gone@).contains(f) <==> first.contains(f) || exists|k: int|
                        0 <= k < i && #[trigger] order[k] == f && counts@[f]
                            >= MAX_FILE_COUNT_IN_RESULT_SET,
            decreases n - i,
        {
            let (file, count) = counts.entry_at(i);
            let ghost before = gone@;
            if *count >= MAX_FILE_COUNT_IN_RESULT_SET {
                gone.push(file.clone());
            }
            proof {
                assert forall|f: Seq<char>| #[trigger] texts(gone@).contains(f) <==> first.contains(
                    f,
                ) || exists|k: int|
                    0 <= k < i + 1 && #[trigger] order[k] == f && counts@[f]
                        >= MAX_FILE_COUNT_IN_RESULT_SET by {
                    assert(texts(before).contains(f) <==> first.contains(f) || exists|k: int|
                        0 <= k < i && #[trigger] order[k] == f && counts@[f]
                            >= MAX_FILE_COUNT_IN_RESULT_SET);
                    assert(order[i as int] == file@);
                }
            }
            i += 1;
        }
        proof {
            let goal = unwanted(m, params, texts(used@));
            assert forall|f: Seq<char>| texts(gone@).to_set().contains(f) <==> goal.contains(f) by {
                assert(texts(gone@).contains(f) <==> texts(gone@).to_set().contains(f));
                assert(counts@.contains_key(f) <==> is_listed(m, f));
                assert(count_in(counts@, f) == holders(m, f).len());
                if limited && is_listed(m, f) && holders(m, f).len()
                    >= MAX_FILE_COUNT_IN_RESULT_SET {
                    assert(order.to_set().contains(f));
                    let k = choose|k: int| 0 <= k < order.len() && order[k] == f;
                    assert(order[k] == f);
                }
                if limited && texts(gone@).contains(f) && !first.contains(f) {
                    let k = choose|k: int|
                        0 <= k < i && #[trigger] order[k] == f && counts@[f]
                            >= MAX_FILE_COUNT_IN_RESULT_SET;
                    assert(order.to_set().contains(order[k]));
                }
            }
            assert(texts(gone@).to_set() =~= goal);
        }
        self.item2files.remove_files(&gone);
        self.item2files.drop_empty();
    }

    /// Takes the items out that have no files.
    pub fn remove_items_with_no_file_candidates(&mut self)
        ensures
            final(self)@ == (FistView {
                item2files: without_empty(old(self)@.item2files),
                ..old(self)@
            }),
    {
        self.item2files.drop_empty();
    }
}

} // verus!

//! Which files are good, which stay, and which are listed.
use crate::filename::{good_filetype, normalized, valid_filename};
use crate::files::{
    count_of, files_of, holders, is_listed, lists_counts, lists_files, room_for, with_file,
    without_all, without_empty, without_file,
};
use crate::pattern::{filetype, occurs_in, parts_filetype};
use crate::row_laws::names_are_those_of_readable_rows;
use crate::text::lowercased;
use crate::text_laws::{
    every_line_names_a_file, is_on_a_line, says_something, set_parameters_say_something,
};
use crate::wdfist::{
    five_or_used, listed_names, present, seeded, unwanted, without_pairs, FistView,
};
use vstd::prelude::*;

verus! {

broadcast use vstd::seq_lib::group_seq_properties;

/// Whether a file is known for an item.
pub open spec fn knows(
    m: Map<Seq<char>, Map<Seq<char>, usize>>,
    item: Seq<char>,
    file: Seq<char>,
) -> bool {
    m.contains_key(item) && m[item].contains_key(file)
}

/// The count of a file is the one that stands there, or zero where none does.
pub proof fn counts_are_those_that_stand_there(
    m: Map<Seq<char>, Map<Seq<char>, usize>>,
    item: Seq<char>,
    file: Seq<char>,
)
    ensures
        files_of(m, item).contains_key(file) <==> knows(m, item, file),
        knows(m, item, file) ==> count_of(m, item, file) == m[item][file],
        !knows(m, item, file) ==> count_of(m, item, file) == 0,
{
}

/// Which files with a type are good for an item: those that are not to be
/// ignored, of a type that is wanted, and without a phrase that tells of an icon,
/// unless they are SVG files that are allowed.
pub proof fn good_files_are_of_a_good_type(
    ignored: Set<Seq<char>>,
    allow_svg: bool,
    only_jpeg: bool,
    name: Seq<char>,
    dot: int,
)
    requires
        parts_filetype(name, dot),
    ensures
        ({
            let kind = lowercased(name.skip(dot + 1));
            valid_filename(ignored, allow_svg, only_jpeg, name) <==> {
                &&& !ignored.contains(name)
                &&& only_jpeg ==> kind == "jpg"@ || kind == "jpeg"@
                &&& kind == "svg"@ ==> allow_svg
                &&& kind != "pdf"@
                &&& kind != "gif"@
                &&& occurs_in("Flag_of_"@, name) ==> kind == "svg"@
                &&& occurs_in("Crystal_Clear_"@, name) ==> kind == "svg"@
                &&& occurs_in("Nuvola_"@, name) ==> kind == "svg"@
                &&& occurs_in("Kit_"@, name) ==> kind == "svg"@
                &&& kind == "png"@ ==> !occurs_in("600px_"@, name)
            }
        }),
{
    reveal_strlit("jpg");
    reveal_strlit("jpeg");
    reveal_strlit("svg");
    reveal_strlit("pdf");
    reveal_strlit("gif");
    reveal_strlit("png");
    assert("svg"@[0] != "pdf"@[0] && "svg"@[0] != "gif"@[0] && "svg"@[0] != "png"@[0]);
    assert forall|other: int| parts_filetype(name, other) implies other == dot by {
        if other < dot {
            assert(name[dot] == '.');
        }
        if dot < other {
            assert(name[other] == '.');
        }
    }
    assert(filetype(name) == Some(name.skip(dot + 1)));
}

/// A file without a type is not good for an item.
pub proof fn files_without_a_type_are_not_good(
    ignored: Set<Seq<char>>,
    allow_svg: bool,
    only_jpeg: bool,
    name: Seq<char>,
)
    requires
        forall|dot: int| !parts_filetype(name, dot),
    ensures
        !valid_filename(ignored, allow_svg, only_jpeg, name),
{
}

/// Finding a file counts it once more for its item, or for the first time, and
/// changes nothing else.
pub proof fn a_file_found_is_counted_once(
    m: Map<Seq<char>, Map<Seq<char>, usize>>,
    item: Seq<char>,
    file: Seq<char>,
    other_item: Seq<char>,
    other_file: Seq<char>,
)
    requires
        knows(m, item, file) ==> m[item][file] < usize::MAX,
    ensures
        ({
            let after = with_file(m, item, file);
            &&& knows(after, item, file)
            &&& after[item][file] == (if knows(m, item, file) {
                m[item][file] + 1
            } else {
                1
            })
            &&& (other_item, other_file) != (item, file) ==> {
                &&& knows(after, other_item, other_file) <==> knows(m, other_item, other_file)
                &&& knows(m, other_item, other_file) ==> after[other_item][other_file]
                    == m[other_item][other_file]
            }
            &&& other_item != item ==> (after.contains_key(other_item) <==> m.contains_key(
                other_item,
            ))
        }),
{
}

/// The items that have a file.
pub open spec fn sharers(m: Map<Seq<char>, Map<Seq<char>, usize>>, file: Seq<char>) -> Set<
    Seq<char>,
> {
    Set::new(|item: Seq<char>| knows(m, item, file))
}

/// Whether a file is unwanted in a result: items use it and such files are not
/// wanted, or five items or more share it and that is not wanted.
pub open spec fn is_unwanted(
    m: Map<Seq<char>, Map<Seq<char>, usize>>,
    params: Map<Seq<char>, Seq<char>>,
    used: Seq<Seq<char>>,
    file: Seq<char>,
) -> bool {
    ||| says_something(params, "wdf_only_files_not_on_wd"@) && used.contains(file)
    ||| says_something(params, "wdf_max_five_results"@) && sharers(m, file).len() >= 5
}

/// No wanted file is lost, and no unwanted one stays: a file that an item had is
/// still there, with its count, exactly if it is not unwanted. Then items without
/// files go; where no item has a file, all stay.
#[verifier::rlimit(50)]
pub proof fn wanted_files_stay(
    m: Map<Seq<char>, Map<Seq<char>, usize>>,
    params: Map<Seq<char>, Seq<char>>,
    used: Seq<Seq<char>>,
    item: Seq<char>,
    file: Seq<char>,
)
    requires
        m.dom().finite(),
    ensures
        ({
            let after = five_or_used(m, params, used);
            &&& knows(after, item, file) <==> knows(m, item, file) && !is_unwanted(
                m,
                params,
                used,
                file,
            )
            &&& knows(after, item, file) ==> after[item][file] == m[item][file]
            &&& (exists|i: Seq<char>, f: Seq<char>| knows(m, i, f)) ==> (after.contains_key(item)
                <==> exists|f: Seq<char>| #[trigger] knows(after, item, f))
            &&& !(exists|i: Seq<char>, f: Seq<char>| knows(m, i, f)) ==> after == m
        }),
{
    let after = five_or_used(m, params, used);
    set_parameters_say_something(params, "wdf_only_files_not_on_wd"@);
    set_parameters_say_something(params, "wdf_max_five_results"@);
    assert(holders(m, file) =~= sharers(m, file));
    if exists|i: Seq<char>, f: Seq<char>| knows(m, i, f) {
        let (i, f) = choose|i: Seq<char>, f: Seq<char>| knows(m, i, f);
        assert(is_listed(m, f));
        if sharers(m, file).len() >= 5 {
            let holder = sharers(m, file).choose();
            vstd::set_lib::lemma_len_subset(sharers(m, file), m.dom());
            assert(sharers(m, file).contains(holder));
            assert(knows(m, holder, file));
            assert(is_listed(m, file));
        }
        let gone = unwanted(m, params, used);
        assert(gone.contains(file) <==> is_unwanted(m, params, used, file));
        assert(exists|g: Seq<char>| is_listed(m, g));
        assert(after == without_empty(without_all(m, gone)));
        if m.contains_key(item) {
            assert(m[item].remove_keys(gone).contains_key(file) <==> m[item].contains_key(file)
                && !gone.contains(file));
            if m[item].remove_keys(gone).contains_key(file) {
                assert(m[item].remove_keys(gone) != Map::<Seq<char>, usize>::empty());
            }
        }
        if after.contains_key(item) {
            assert(after[item] != Map::<Seq<char>, usize>::empty());
            if forall|g: Seq<char>| !#[trigger] knows(after, item, g) {
                assert forall|g: Seq<char>| !after[item].contains_key(g) by {
                    assert(!knows(after, item, g));
                }
                assert(after[item] =~= Map::<Seq<char>, usize>::empty());
            }
        }
    } else {
        assert forall|f: Seq<char>| !is_listed(m, f) by {
            assert forall|i: Seq<char>| !(m.contains_key(i) && m[i].contains_key(f)) by {
                assert(!knows(m, i, f));
            }
        }
        assert(!knows(m, item, file));
    }
}

/// Items without files go, and nothing else does.
pub proof fn only_items_without_files_go(
    m: Map<Seq<char>, Map<Seq<char>, usize>>,
    item: Seq<char>,
)
    ensures
        without_empty(m).contains_key(item) <==> exists|f: Seq<char>| #[trigger]
            knows(m, item, f),
        without_empty(m).contains_key(item) ==> without_empty(m)[item] == m[item],
{
    if m.contains_key(item) {
        if forall|f: Seq<char>| !#[trigger] knows(m, item, f) {
            assert forall|f: Seq<char>| !m[item].contains_key(f) by {
                assert(!knows(m, item, f));
            }
            assert(m[item] =~= Map::<Seq<char>, usize>::empty());
        }
    }
}

/// Whether a row tells to ignore the file for the item.
pub open spec fn row_ignores(
    row: (Seq<char>, Seq<char>),
    item: Seq<char>,
    file: Seq<char>,
) -> bool {
    row.0 == item && normalized(row.1) == file
}

/// A file is gone exactly if a row tells to ignore it for its item; the others
/// keep their counts. An item that rows tell of goes when it has no file left,
/// another item stays.
#[verifier::rlimit(50)]
pub proof fn only_files_to_ignore_are_gone(
    m: Map<Seq<char>, Map<Seq<char>, usize>>,
    rows: Seq<(Seq<char>, Seq<char>)>,
    item: Seq<char>,
    file: Seq<char>,
)
    ensures
        ({
            let after = without_pairs(m, rows);
            &&& knows(after, item, file) <==> knows(m, item, file) && !exists|i: int|
                0 <= i < rows.len() && row_ignores(#[trigger] rows[i], item, file)
            &&& knows(after, item, file) ==> after[item][file] == m[item][file]
            &&& after.contains_key(item) <==> m.contains_key(item) && ((exists|f: Seq<char>|
                #[trigger] knows(after, item, f)) || forall|i: int|
                0 <= i < rows.len() ==> (#[trigger] rows[i]).0 != item)
        }),
    decreases rows.len(),
{
    let after = without_pairs(m, rows);
    if rows.len() == 0 {
    } else {
        let fewer = rows.drop_last();
        let before = without_pairs(m, fewer);
        let (i, f) = (rows.last().0, normalized(rows.last().1));
        assert(rows[rows.len() - 1] == rows.last());
        assert(forall|k: int| 0 <= k < fewer.len() ==> fewer[k] == rows[k]);
        assert forall|g: Seq<char>|
            (#[trigger] knows(after, item, g) <==> knows(before, item, g) && !(i == item && f
                == g)) && (knows(after, item, g) ==> after[item][g] == before[item][g]) by {
            if before.contains_key(i) && before[i].remove(f) == Map::<Seq<char>, usize>::empty() {
                if i == item && g != f {
                    assert(!before[i].remove(f).contains_key(g));
                }
            }
        }
        only_files_to_ignore_are_gone(m, fewer, item, file);
        if exists|k: int| 0 <= k < fewer.len() && row_ignores(#[trigger] fewer[k], item, file) {
            let k = choose|k: int|
                0 <= k < fewer.len() && row_ignores(#[trigger] fewer[k], item, file);
            assert(row_ignores(rows[k], item, file));
        }
        if exists|k: int| 0 <= k < rows.len() && row_ignores(#[trigger] rows[k], item, file) {
            let k = choose|k: int|
                0 <= k < rows.len() && row_ignores(#[trigger] rows[k], item, file);
            if k < fewer.len() {
                assert(row_ignores(fewer[k], item, file));
            }
        }
        if i == item {
            assert(rows[rows.len() - 1].0 == item);
            if before.contains_key(item) {
                let left = before[item].remove(f);
                if left != Map::<Seq<char>, usize>::empty() {
                    if forall|g: Seq<char>| !#[trigger] knows(after, item, g) {
                        assert forall|g: Seq<char>| !left.contains_key(g) by {
                            assert(!knows(after, item, g));
                        }
                        assert(left =~= Map::<Seq<char>, usize>::empty());
                    }
                }
            }
        } else {
            assert(after.contains_key(item) == before.contains_key(item));
            if exists|g: Seq<char>| #[trigger] knows(before, item, g) {
                let g = choose|g: Seq<char>| #[trigger] knows(before, item, g);
                assert(knows(after, item, g));
            }
            if exists|g: Seq<char>| #[trigger] knows(after, item, g) {
                let g = choose|g: Seq<char>| #[trigger] knows(after, item, g);
                assert(knows(before, item, g));
            }
            if forall|k: int| 0 <= k < fewer.len() ==> (#[trigger] fewer[k]).0 != item {
                assert forall|k: int| 0 <= k < rows.len() implies (#[trigger] rows[k]).0
                    != item by {
                    if k < fewer.len() {
                        assert(fewer[k].0 != item);
                    }
                }
            }
            if forall|k: int| 0 <= k < rows.len() ==> (#[trigger] rows[k]).0 != item {
                assert forall|k: int| 0 <= k < fewer.len() implies (#[trigger] fewer[k]).0
                    != item by {
                    assert(rows[k].0 != item);
                }
            }
        }
    }
}

/// A result lists every item once, every file of it once, with its count, and
/// nothing else.
pub proof fn results_list_every_file_once(
    rows: Seq<(String, Vec<(String, usize)>)>,
    m: Map<Seq<char>, Map<Seq<char>, usize>>,
    item: Seq<char>,
    file: Seq<char>,
)
    requires
        lists_files(rows, m),
    ensures
        m.contains_key(item) <==> exists|i: int|
            0 <= i < rows.len() && (#[trigger] rows[i]).0@ == item,
        forall|i: int, j: int|
            0 <= i < rows.len() && 0 <= j < rows.len() && i != j ==> (#[trigger] rows[i]).0@
                != (#[trigger] rows[j]).0@,
        forall|i: int|
            0 <= i < rows.len() && (#[trigger] rows[i]).0@ == item ==> (knows(m, item, file)
                <==> exists|k: int|
                0 <= k < rows[i].1@.len() && (#[trigger] rows[i].1@[k]).0@ == file),
        forall|i: int, k: int|
            0 <= i < rows.len() && 0 <= k < rows[i].1@.len() ==> #[trigger] rows[i].1@[k].1
                == m[rows[i].0@][rows[i].1@[k].0@],
        forall|i: int, k: int, l: int|
            0 <= i < rows.len() && 0 <= k < l < rows[i].1@.len() ==> (#[trigger] rows[i].1@[k]).0@
                != (#[trigger] rows[i].1@[l]).0@,
{
    assert forall|i: int, j: int|
        0 <= i < rows.len() && 0 <= j < rows.len() && i != j implies (#[trigger] rows[i]).0@ != (
    #[trigger] rows[j]).0@ by {
        if i < j {
        } else {
            assert(rows[j].0@ != rows[i].0@);
        }
    }
    assert forall|i: int| 0 <= i < rows.len() && (#[trigger] rows[i]).0@ == item implies (knows(
        m,
        item,
        file,
    ) <==> exists|k: int| 0 <= k < rows[i].1@.len() && (#[trigger] rows[i].1@[k]).0@ == file) by {
        assert(lists_counts(rows[i].1@, m[item]));
    }
    assert forall|i: int, k: int|
        0 <= i < rows.len() && 0 <= k < rows[i].1@.len() implies #[trigger] rows[i].1@[k].1
        == m[rows[i].0@][rows[i].1@[k].0@] by {
        assert(lists_counts(rows[i].1@, m[rows[i].0@]));
    }
    assert forall|i: int, k: int, l: int|
        0 <= i < rows.len() && 0 <= k < l < rows[i].1@.len() implies (#[trigger] rows[i].1@[k]).0@
        != (#[trigger] rows[i].1@[l]).0@ by {
        assert(lists_counts(rows[i].1@, m[rows[i].0@]));
    }
}

/// The rules of a search after files to ignore have been taken in.
pub open spec fn seeded_with(s: FistView, names: Seq<Seq<char>>) -> FistView {
    FistView { ignored: seeded(s.ignored, s.allow_svg, s.only_jpeg, names), ..s }
}

proof fn lemma_seeded_with(s: FistView, names: Seq<Seq<char>>, file: Seq<char>)
    ensures
        seeded_with(s, names).valid(file) <==> s.valid(file) && !exists|i: int|
            0 <= i < names.len() && normalized(#[trigger] names[i]) == file,
{
}

/// After the page with files to ignore has been taken in, the files that its
/// lines name, from the first to the last, are not valid, and all others are as
/// valid as they were.
pub proof fn files_on_the_page_are_ignored(s: FistView, wikitext: Seq<char>, file: Seq<char>)
    ensures
        seeded_with(s, listed_names(wikitext)).valid(file) <==> s.valid(file)
            && !exists|name: Seq<char>| #[trigger]
            is_on_a_line(wikitext, name) && normalized(name) == file,
        s.ignored.subset_of(seeded_with(s, listed_names(wikitext)).ignored),
{
    let names = listed_names(wikitext);
    lemma_seeded_with(s, names, file);
    if exists|i: int| 0 <= i < names.len() && normalized(#[trigger] names[i]) == file {
        let i = choose|i: int| 0 <= i < names.len() && normalized(#[trigger] names[i]) == file;
        every_line_names_a_file(wikitext, names[i]);
        assert(is_on_a_line(wikitext, names[i]));
    }
    if exists|name: Seq<char>| #[trigger]
        is_on_a_line(wikitext, name) && normalized(name) == file {
        let name = choose|name: Seq<char>| #[trigger]
            is_on_a_line(wikitext, name) && normalized(name) == file;
        every_line_names_a_file(wikitext, name);
        let i = choose|i: int| 0 <= i < names.len() && names[i] == name;
        assert(normalized(names[i]) == file);
    }
}

/// After the database of files to ignore has been taken in, the files of its
/// readable rows are not valid, and all others are as valid as they were.
pub proof fn files_in_the_database_are_ignored(
    s: FistView,
    rows: Seq<Option<String>>,
    file: Seq<char>,
)
    ensures
        seeded_with(s, present(rows)).valid(file) <==> s.valid(file) && !exists|i: int|
            0 <= i < rows.len() && ((#[trigger] rows[i]) matches Some(name) && normalized(name@)
                == file),
        s.ignored.subset_of(seeded_with(s, present(rows)).ignored),
{
    let names = present(rows);
    lemma_seeded_with(s, names, file);
    if exists|k: int| 0 <= k < names.len() && normalized(#[trigger] names[k]) == file {
        let k = choose|k: int| 0 <= k < names.len() && normalized(#[trigger] names[k]) == file;
        names_are_those_of_readable_rows(rows, names[k]);
        let i = choose|i: int|
            0 <= i < rows.len() && ((#[trigger] rows[i]) matches Some(s) && s@ == names[k]);
        assert(rows[i] is Some);
    }
    if exists|i: int|
        0 <= i < rows.len() && ((#[trigger] rows[i]) matches Some(name) && normalized(name@)
            == file) {
        let i = choose|i: int|
            0 <= i < rows.len() && ((#[trigger] rows[i]) matches Some(name) && normalized(name@)
                == file);
        let name = rows[i].unwrap()@;
        names_are_those_of_readable_rows(rows, name);
        assert(names.contains(name));
        let k = choose|k: int| 0 <= k < names.len() && names[k] == name;
        assert(normalized(names[k]) == file);
    }
}

/// Which types of files are good, whatever letters they are written in.
pub proof fn good_types_are_good(
    allow_svg: bool,
    only_jpeg: bool,
    name: Seq<char>,
    kind: Seq<char>,
)
    ensures
        good_filetype(allow_svg, only_jpeg, name, kind) <==> {
            &&& only_jpeg ==> kind == "jpg"@ || kind == "jpeg"@
            &&& kind == "svg"@ ==> allow_svg
            &&& kind != "pdf"@
            &&& kind != "gif"@
            &&& kind != "svg"@ ==> !occurs_in("Flag_of_"@, name)
            &&& kind != "svg"@ ==> !occurs_in("Crystal_Clear_"@, name)
            &&& kind != "svg"@ ==> !occurs_in("Nuvola_"@, name)
            &&& kind != "svg"@ ==> !occurs_in("Kit_"@, name)
            &&& kind == "png"@ ==> !occurs_in("600px_"@, name)
        },
{
    reveal_strlit("svg");
    reveal_strlit("pdf");
    reveal_strlit("gif");
    reveal_strlit("png");
    assert("svg"@[0] != "pdf"@[0] && "svg"@[0] != "gif"@[0] && "svg"@[0] != "png"@[0]);
}

/// Taking a file from an item takes nothing else, but for the item itself when it
/// has no file left.
pub proof fn one_file_is_taken(
    m: Map<Seq<char>, Map<Seq<char>, usize>>,
    item: Seq<char>,
    file: Seq<char>,
    other_item: Seq<char>,
    other_file: Seq<char>,
)
    ensures
        ({
            let after = without_file(m, item, file);
            &&& knows(after, other_item, other_file) <==> knows(m, other_item, other_file) && (
            other_item,
            other_file,
            ) != (item, file)
            &&& knows(after, other_item, other_file) ==> after[other_item][other_file]
                == m[other_item][other_file]
            &&& other_item != item ==> (after.contains_key(other_item) <==> m.contains_key(
                other_item,
            ))
            &&& after.contains_key(item) ==> exists|f: Seq<char>| #[trigger] knows(after, item, f)
        }),
{
    let after = without_file(m, item, file);
    if m.contains_key(item) {
        let left = m[item].remove(file);
        if left == Map::<Seq<char>, usize>::empty() {
            assert(!left.contains_key(other_file));
        } else if forall|f: Seq<char>| !#[trigger] knows(after, item, f) {
            assert forall|f: Seq<char>| !left.contains_key(f) by {
                assert(!knows(after, item, f));
            }
            assert(left =~= Map::<Seq<char>, usize>::empty());
        }
    }
}

/// Taking files from all items takes exactly these.
pub proof fn files_are_taken_from_all(
    m: Map<Seq<char>, Map<Seq<char>, usize>>,
    gone: Set<Seq<char>>,
    item: Seq<char>,
    file: Seq<char>,
)
    ensures
        without_all(m, gone).contains_key(item) <==> m.contains_key(item),
        knows(without_all(m, gone), item, file) <==> knows(m, item, file) && !gone.contains(file),
        knows(without_all(m, gone), item, file) ==> without_all(m, gone)[item][file]
            == m[item][file],
{
}

/// There is room for files exactly if each count can grow by how often its own
/// file is among them.
pub proof fn counts_need_room_for_their_own_file(
    m: Map<Seq<char>, Map<Seq<char>, usize>>,
    pairs: Seq<(Seq<char>, Seq<char>)>,
)
    ensures
        room_for(m, pairs) <==> forall|item: Seq<char>, file: Seq<char>|
            (if knows(m, item, file) {
                m[item][file] as int
            } else {
                0
            }) + #[trigger] pairs.to_multiset().count((item, file)) <= usize::MAX,
{
    if forall|item: Seq<char>, file: Seq<char>|
        (if knows(m, item, file) {
            m[item][file] as int
        } else {
            0
        }) + #[trigger] pairs.to_multiset().count((item, file)) <= usize::MAX {
        assert forall|item: Seq<char>, file: Seq<char>| #[trigger] count_of(m, item, file)
            + pairs.to_multiset().count((item, file)) <= usize::MAX by {}
    }
    if room_for(m, pairs) {
        assert forall|item: Seq<char>, file: Seq<char>|
            (if knows(m, item, file) {
                m[item][file] as int
            } else {
                0
            }) + #[trigger] pairs.to_multiset().count((item, file)) <= usize::MAX by {
            assert(count_of(m, item, file) + pairs.to_multiset().count((item, file))
                <= usize::MAX);
        }
    }
}

} // verus!

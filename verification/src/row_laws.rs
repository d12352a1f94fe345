//! What becomes of rows: that each row counts for itself, whatever stands before
//! and after it, and what it counts for.
use crate::answer::{
    file_of_title, files_for, geosearch_params, member, member_of, search_params, search_titles,
    Answer,
};
use crate::links::{as_map, grouped, item_id, linked, those_in};
use crate::pagelist::{
    entries_from, is_difference, is_intersection, is_union, main_names, merge_error, EntryView,
    PageList, PageListEntry,
};
use crate::query::{
    asked_keys, asked_values, ignore_query_text, query_text, without_first_bytes, Query, QueryView,
};
use crate::text::{cuttable, decimal, replaced, text_le};
use crate::text_laws::start_is_cut;
use crate::wdfist::{
    last_refusal, present, present_pairs, refusal, rows_of, rows_to_ignore, starts_from, FistView,
};
use vstd::prelude::*;
use vstd::std_specs::cmp::PartialEqSpec;
use vstd::utf8::encode_utf8;

verus! {

broadcast use vstd::seq_lib::group_seq_properties;

/// Files on pages are linked to items row by row: a row whose page is about an
/// item gives the item and the file, another gives nothing.
pub proof fn rows_are_linked_one_by_one(
    a: Seq<(Seq<char>, Seq<char>)>,
    b: Seq<(Seq<char>, Seq<char>)>,
    page: Seq<char>,
    file: Seq<char>,
    page2q: Map<Seq<char>, Seq<char>>,
)
    ensures
        linked(a + b, page2q) == linked(a, page2q) + linked(b, page2q),
        page2q.contains_key(page) ==> linked(seq![(page, file)], page2q) == seq![
            (page2q[page], file),
        ],
        !page2q.contains_key(page) ==> linked(seq![(page, file)], page2q).len() == 0,
    decreases b.len(),
{
    let one = seq![(page, file)];
    assert(one.drop_last() =~= Seq::empty());
    assert(linked(one.drop_last(), page2q) =~= Seq::empty());
    if page2q.contains_key(page) {
        assert(linked(one, page2q) =~= seq![(page2q[page], file)]);
    }
    if b.len() == 0 {
        assert(a + b =~= a);
        assert(linked(a, page2q) + linked(b, page2q) =~= linked(a, page2q));
    } else {
        rows_are_linked_one_by_one(a, b.drop_last(), page, file, page2q);
        assert((a + b).drop_last() =~= a + b.drop_last());
        assert((a + b).last() == b.last());
        assert(linked(a + b, page2q) =~= linked(a, page2q) + linked(b, page2q));
    }
}

/// Rows are kept one by one: a row that stands among the others is kept, as
/// often as it comes, another is not.
pub proof fn rows_are_kept_one_by_one(
    a: Seq<(Seq<char>, Seq<char>)>,
    b: Seq<(Seq<char>, Seq<char>)>,
    row: (Seq<char>, Seq<char>),
    others: Seq<(Seq<char>, Seq<char>)>,
)
    ensures
        those_in(a + b, others) == those_in(a, others) + those_in(b, others),
        others.contains(row) ==> those_in(seq![row], others) == seq![row],
        !others.contains(row) ==> those_in(seq![row], others).len() == 0,
    decreases b.len(),
{
    reveal(Seq::filter);
    let one = seq![row];
    assert(one.drop_last() =~= Seq::empty());
    assert(those_in(one.drop_last(), others) =~= Seq::empty());
    if others.contains(row) {
        assert(those_in(one, others) =~= seq![row]);
    }
    if b.len() == 0 {
        assert(a + b =~= a);
        assert(those_in(a, others) + those_in(b, others) =~= those_in(a, others));
    } else {
        rows_are_kept_one_by_one(a, b.drop_last(), row, others);
        assert((a + b).drop_last() =~= a + b.drop_last());
        assert((a + b).last() == b.last());
        assert(those_in(a + b, others) =~= those_in(a, others) + those_in(b, others));
    }
}

/// Titles name files one by one: a title that is a text gives the item and the
/// file that the title is of, another gives nothing.
pub proof fn titles_name_files_one_by_one(
    item: Seq<char>,
    a: Seq<Option<Seq<char>>>,
    b: Seq<Option<Seq<char>>>,
    title: Seq<char>,
)
    ensures
        files_for(item, a + b) == files_for(item, a) + files_for(item, b),
        files_for(item, seq![Some(title)]) == seq![(item, file_of_title(title))],
        files_for(item, seq![None::<Seq<char>>]).len() == 0,
        files_for(item, Seq::empty()).len() == 0,
    decreases b.len(),
{
    let one = seq![Some(title)];
    let none = seq![None::<Seq<char>>];
    assert(one.drop_last() =~= Seq::empty());
    assert(none.drop_last() =~= Seq::empty());
    assert(files_for(item, one.drop_last()) =~= Seq::empty());
    assert(files_for(item, none.drop_last()) =~= Seq::empty());
    assert(files_for(item, one) =~= seq![(item, file_of_title(title))]);
    if b.len() == 0 {
        assert(a + b =~= a);
        assert(files_for(item, a) + files_for(item, b) =~= files_for(item, a));
    } else {
        titles_name_files_one_by_one(item, a, b.drop_last(), title);
        assert((a + b).drop_last() =~= a + b.drop_last());
        assert((a + b).last() == b.last());
        assert(files_for(item, a + b) =~= files_for(item, a) + files_for(item, b));
    }
}

/// Readable rows are taken one by one, the others are passed over.
pub proof fn readable_rows_are_taken_one_by_one(
    a: Seq<Option<String>>,
    b: Seq<Option<String>>,
    name: String,
)
    ensures
        present(a + b) == present(a) + present(b),
        present(seq![Some(name)]) == seq![name@],
        present(seq![None::<String>]).len() == 0,
    decreases b.len(),
{
    let one = seq![Some(name)];
    let none = seq![None::<String>];
    assert(one.drop_last() =~= Seq::empty());
    assert(none.drop_last() =~= Seq::empty());
    assert(present(one.drop_last()) =~= Seq::empty());
    assert(present(none.drop_last()) =~= Seq::empty());
    assert(present(one) =~= seq![name@]);
    if b.len() == 0 {
        assert(a + b =~= a);
        assert(present(a) + present(b) =~= present(a));
    } else {
        readable_rows_are_taken_one_by_one(a, b.drop_last(), name);
        assert((a + b).drop_last() =~= a + b.drop_last());
        assert((a + b).last() == b.last());
        assert(present(a + b) =~= present(a) + present(b));
    }
}

/// A name is taken from the database exactly if a readable row holds it.
pub proof fn names_are_those_of_readable_rows(rows: Seq<Option<String>>, name: Seq<char>)
    ensures
        present(rows).contains(name) <==> exists|i: int|
            0 <= i < rows.len() && ((#[trigger] rows[i]) matches Some(s) && s@ == name),
    decreases rows.len(),
{
    if rows.len() > 0 {
        let fewer = rows.drop_last();
        names_are_those_of_readable_rows(fewer, name);
        let (before, all) = (present(fewer), present(rows));
        if before.contains(name) {
            let i = choose|i: int|
                0 <= i < fewer.len() && ((#[trigger] fewer[i]) matches Some(s) && s@ == name);
            assert(rows[i] == fewer[i]);
            let k = choose|k: int| 0 <= k < before.len() && before[k] == name;
            assert(all[k] == name);
        }
        if rows.last() is Some {
            assert(all[all.len() - 1] == rows.last().unwrap()@);
            assert(rows[rows.len() - 1] == rows.last());
        }
        if exists|i: int|
            0 <= i < rows.len() && ((#[trigger] rows[i]) matches Some(s) && s@ == name) {
            let i = choose|i: int|
                0 <= i < rows.len() && ((#[trigger] rows[i]) matches Some(s) && s@ == name);
            if i < fewer.len() {
                assert(fewer[i] == rows[i]);
            }
        }
    }
}

proof fn lemma_present_pairs(rows: Seq<Option<(String, String)>>, pair: (Seq<char>, Seq<char>))
    ensures
        present_pairs(rows).contains(pair) <==> exists|i: int|
            0 <= i < rows.len() && ((#[trigger] rows[i]) matches Some(p) && (p.0@, p.1@) == pair),
    decreases rows.len(),
{
    if rows.len() > 0 {
        let fewer = rows.drop_last();
        lemma_present_pairs(fewer, pair);
        let (before, all) = (present_pairs(fewer), present_pairs(rows));
        if before.contains(pair) {
            let i = choose|i: int|
                0 <= i < fewer.len() && ((#[trigger] fewer[i]) matches Some(p) && (p.0@, p.1@)
                    == pair);
            assert(rows[i] == fewer[i]);
            let k = choose|k: int| 0 <= k < before.len() && before[k] == pair;
            assert(all[k] == pair);
        }
        if rows.last() is Some {
            assert(all[all.len() - 1] == (rows.last().unwrap().0@, rows.last().unwrap().1@));
            assert(rows[rows.len() - 1] == rows.last());
        }
        if exists|i: int|
            0 <= i < rows.len() && ((#[trigger] rows[i]) matches Some(p) && (p.0@, p.1@) == pair) {
            let i = choose|i: int|
                0 <= i < rows.len() && ((#[trigger] rows[i]) matches Some(p) && (p.0@, p.1@)
                    == pair);
            if i < fewer.len() {
                assert(fewer[i] == rows[i]);
            }
        }
    }
}

/// Whether a readable row holds the item and the file.
pub open spec fn rows_name(
    rows: Seq<Option<(String, String)>>,
    item: Seq<char>,
    file: Seq<char>,
) -> bool {
    exists|i: int|
        0 <= i < rows.len() && ((#[trigger] rows[i]) matches Some(p) && (p.0@, p.1@) == (
            item,
            file,
        ))
}

/// Whether a batch that was not refused has a readable row with the item and the
/// file.
pub open spec fn batches_name(
    batches: Seq<Result<Vec<Option<(String, String)>>, String>>,
    item: Seq<char>,
    file: Seq<char>,
) -> bool {
    exists|b: int|
        0 <= b < batches.len() && ((#[trigger] batches[b]) matches Ok(rows) && rows_name(
            rows@,
            item,
            file,
        ))
}

#[verifier::rlimit(50)]
proof fn lemma_rows_of(
    batches: Seq<Result<Vec<Option<(String, String)>>, String>>,
    item: Seq<char>,
    file: Seq<char>,
)
    ensures
        rows_of(batches).contains((item, file)) <==> batches_name(batches, item, file),
    decreases batches.len(),
{
    let pair = (item, file);
    if batches.len() > 0 {
        let fewer = batches.drop_last();
        lemma_rows_of(fewer, item, file);
        let (before, all) = (rows_of(fewer), rows_of(batches));
        assert(batches[batches.len() - 1] == batches.last());
        if before.contains(pair) {
            let b = choose|b: int|
                0 <= b < fewer.len() && ((#[trigger] fewer[b]) matches Ok(rows) && rows_name(
                    rows@,
                    item,
                    file,
                ));
            assert(batches[b] == fewer[b]);
            let k = choose|k: int| 0 <= k < before.len() && before[k] == pair;
            assert(all[k] == pair);
        }
        if let Ok(rows) = batches.last() {
            let more = present_pairs(rows@);
            lemma_present_pairs(rows@, pair);
            if more.contains(pair) {
                let k = choose|k: int| 0 <= k < more.len() && more[k] == pair;
                assert(all[before.len() + k] == pair);
                assert(rows_name(rows@, item, file));
            }
            if all.contains(pair) && !before.contains(pair) {
                let k = choose|k: int| 0 <= k < all.len() && all[k] == pair;
                if k < before.len() {
                    assert(before[k] == pair);
                }
                assert(more[k - before.len()] == pair);
            }
        }
        if batches_name(batches, item, file) {
            let b = choose|b: int|
                0 <= b < batches.len() && ((#[trigger] batches[b]) matches Ok(rows) && rows_name(
                    rows@,
                    item,
                    file,
                ));
            if b < fewer.len() {
                assert(fewer[b] == batches[b]);
                assert(batches_name(fewer, item, file));
            }
        }
    }
}

/// The files to ignore are exactly those of the readable rows of all batches
/// that were not refused, if there are items at all.
pub proof fn files_to_ignore_are_those_of_all_batches(
    items: Seq<Seq<char>>,
    batches: Seq<Result<Vec<Option<(String, String)>>, String>>,
    item: Seq<char>,
    file: Seq<char>,
)
    ensures
        rows_to_ignore(items, batches).contains((item, file)) <==> items.len() > 0
            && batches_name(batches, item, file),
{
    lemma_rows_of(batches, item, file);
}

#[verifier::rlimit(50)]
proof fn lemma_last_refusal(batches: Seq<Result<Vec<Option<(String, String)>>, String>>)
    ensures
        last_refusal(batches) is None <==> forall|b: int|
            0 <= b < batches.len() ==> (#[trigger] batches[b]) is Ok,
        forall|b: int|
            0 <= b < batches.len() && (#[trigger] batches[b]) is Err && (forall|c: int|
                b < c < batches.len() ==> (#[trigger] batches[c]) is Ok) ==> last_refusal(batches)
                == Some(batches[b]->Err_0@),
    decreases batches.len(),
{
    if batches.len() > 0 {
        let fewer = batches.drop_last();
        lemma_last_refusal(fewer);
        assert(forall|b: int| 0 <= b < fewer.len() ==> fewer[b] == batches[b]);
        assert(batches[batches.len() - 1] == batches.last());
        assert forall|b: int|
            0 <= b < batches.len() && (#[trigger] batches[b]) is Err && (forall|c: int|
                b < c < batches.len() ==> (#[trigger] batches[c]) is Ok) implies last_refusal(
            batches,
        ) == Some(batches[b]->Err_0@) by {
            if b < fewer.len() {
                assert(fewer[b] is Err);
                assert forall|c: int| b < c < fewer.len() implies (#[trigger] fewer[c]) is Ok by {
                    assert(batches[c] is Ok);
                }
                assert(batches[batches.len() - 1] is Ok);
            }
        }
        if last_refusal(batches) is None {
            assert forall|b: int| 0 <= b < batches.len() implies (#[trigger] batches[b]) is Ok by {
                if b < fewer.len() {
                    assert(fewer[b] is Ok);
                }
            }
        }
    }
}

/// A refusal is told exactly if a batch was refused and there are items, and it
/// is that of the last batch that was.
pub proof fn the_last_refusal_is_told(
    items: Seq<Seq<char>>,
    batches: Seq<Result<Vec<Option<(String, String)>>, String>>,
)
    requires
        items.len() > 0,
    ensures
        refusal(items, batches) is None <==> forall|b: int|
            0 <= b < batches.len() ==> (#[trigger] batches[b]) is Ok,
        forall|b: int|
            0 <= b < batches.len() && (#[trigger] batches[b]) is Err && (forall|c: int|
                b < c < batches.len() ==> (#[trigger] batches[c]) is Ok) ==> refusal(
                items,
                batches,
            ) == Some(batches[b]->Err_0@),
{
    lemma_last_refusal(batches);
}

/// Whether one text is another with underscores in place of its spaces.
pub open spec fn is_page_title(title: Seq<char>, page: Seq<char>) -> bool {
    &&& title.len() == page.len()
    &&& forall|i: int|
        0 <= i < page.len() ==> #[trigger] title[i] == (if page[i] == ' ' {
            '_'
        } else {
            page[i]
        })
}

/// Whether a row is about the item with the page in the wiki.
pub open spec fn row_tells(
    row: (u64, Seq<char>, Seq<char>),
    wiki: Seq<char>,
    title: Seq<char>,
    item: Seq<char>,
) -> bool {
    row.1 == wiki && wiki != "wikidatawiki"@ && is_page_title(title, row.2) && item == item_id(
        row.0,
    )
}

proof fn lemma_title(title: Seq<char>, page: Seq<char>)
    ensures
        is_page_title(title, page) <==> title == replaced(page, ' ', '_'),
{
    if is_page_title(title, page) {
        assert(title =~= replaced(page, ' ', '_'));
    }
}

/// The pages about items are sorted by wiki, row by row: a wiki other than
/// Wikidata has a page and an item exactly if a row tells so, with all spaces of
/// the page's name turned, and a wiki without such a row is not there.
#[verifier::rlimit(50)]
pub proof fn language_links_are_sorted(
    rows: Seq<(u64, Seq<char>, Seq<char>)>,
    wiki: Seq<char>,
    title: Seq<char>,
    item: Seq<char>,
)
    ensures
        grouped(rows).contains_key(wiki) <==> wiki != "wikidatawiki"@ && exists|i: int|
            0 <= i < rows.len() && (#[trigger] rows[i]).1 == wiki,
        grouped(rows).contains_key(wiki) ==> (grouped(rows)[wiki].contains((title, item))
            <==> exists|i: int|
            0 <= i < rows.len() && row_tells(#[trigger] rows[i], wiki, title, item)),
    decreases rows.len(),
{
    if rows.len() > 0 {
        let fewer = rows.drop_last();
        let last = rows.last();
        language_links_are_sorted(fewer, wiki, title, item);
        assert(forall|i: int| 0 <= i < fewer.len() ==> fewer[i] == rows[i]);
        assert(rows[rows.len() - 1] == last);
        lemma_title(title, last.2);
        lemma_title(replaced(last.2, ' ', '_'), last.2);
        if exists|i: int| 0 <= i < fewer.len() && (#[trigger] fewer[i]).1 == wiki {
            let i = choose|i: int| 0 <= i < fewer.len() && (#[trigger] fewer[i]).1 == wiki;
            assert(rows[i].1 == wiki);
        }
        if exists|i: int| 0 <= i < rows.len() && (#[trigger] rows[i]).1 == wiki {
            let i = choose|i: int| 0 <= i < rows.len() && (#[trigger] rows[i]).1 == wiki;
            if i < fewer.len() {
                assert(fewer[i].1 == wiki);
            }
        }
        if exists|i: int|
            0 <= i < fewer.len() && row_tells(#[trigger] fewer[i], wiki, title, item) {
            let i = choose|i: int|
                0 <= i < fewer.len() && row_tells(#[trigger] fewer[i], wiki, title, item);
            assert(row_tells(rows[i], wiki, title, item));
            assert(fewer[i].1 == wiki);
        }
        if exists|i: int|
            0 <= i < rows.len() && row_tells(#[trigger] rows[i], wiki, title, item) {
            let i = choose|i: int|
                0 <= i < rows.len() && row_tells(#[trigger] rows[i], wiki, title, item);
            if i < fewer.len() {
                assert(row_tells(fewer[i], wiki, title, item));
            }
        }
        if last.1 == wiki && wiki != "wikidatawiki"@ {
            let before = grouped(fewer);
            let known = if before.contains_key(wiki) {
                before[wiki]
            } else {
                Seq::empty()
            };
            let pair = (replaced(last.2, ' ', '_'), item_id(last.0));
            let all = grouped(rows)[wiki];
            assert(all == known.push(pair));
            assert(all[all.len() - 1] == pair);
            if known.contains((title, item)) {
                let k = choose|k: int| 0 <= k < known.len() && known[k] == (title, item);
                assert(all[k] == (title, item));
            }
            if !before.contains_key(wiki) {
                assert(forall|i: int| 0 <= i < fewer.len() ==> (#[trigger] fewer[i]).1 != wiki);
            }
        }
    }
}

/// The pages of a wiki, or none.
pub open spec fn group_of(
    groups: Map<Seq<char>, Seq<(Seq<char>, Seq<char>)>>,
    wiki: Seq<char>,
) -> Seq<(Seq<char>, Seq<char>)> {
    if groups.contains_key(wiki) {
        groups[wiki]
    } else {
        Seq::empty()
    }
}

/// The pages of a wiki stand in the order of the rows, each as often as rows
/// tell of it.
pub proof fn language_links_keep_their_order(
    a: Seq<(u64, Seq<char>, Seq<char>)>,
    b: Seq<(u64, Seq<char>, Seq<char>)>,
    wiki: Seq<char>,
    row: (u64, Seq<char>, Seq<char>),
)
    ensures
        group_of(grouped(a + b), wiki) == group_of(grouped(a), wiki) + group_of(grouped(b), wiki),
        group_of(grouped(seq![row]), wiki).len() == (if row.1 == wiki && wiki
            != "wikidatawiki"@ {
            1nat
        } else {
            0
        }),
    decreases b.len(),
{
    let one = seq![row];
    assert(one.drop_last() =~= Seq::empty());
    assert(grouped(one.drop_last()) =~= Map::empty());
    if b.len() == 0 {
        assert(a + b =~= a);
        assert(grouped(b) =~= Map::empty());
        assert(group_of(grouped(a), wiki) + group_of(grouped(b), wiki) =~= group_of(
            grouped(a),
            wiki,
        ));
    } else {
        language_links_keep_their_order(a, b.drop_last(), wiki, row);
        assert((a + b).drop_last() =~= a + b.drop_last());
        assert((a + b).last() == b.last());
        assert(group_of(grouped(a + b), wiki) =~= group_of(grouped(a), wiki) + group_of(
            grouped(b),
            wiki,
        ));
    }
}

/// Whether a pair is the last with its first text.
pub open spec fn is_last_for(
    pairs: Seq<(Seq<char>, Seq<char>)>,
    key: Seq<char>,
    i: int,
) -> bool {
    &&& 0 <= i < pairs.len()
    &&& pairs[i].0 == key
    &&& forall|j: int| i < j < pairs.len() ==> (#[trigger] pairs[j]).0 != key
}

/// A first text that several pairs have is mapped to the second text of the last
/// of them.
pub proof fn the_last_pair_counts(pairs: Seq<(Seq<char>, Seq<char>)>, key: Seq<char>, i: int)
    requires
        is_last_for(pairs, key, i),
    ensures
        as_map(pairs).contains_key(key),
        as_map(pairs)[key] == pairs[i].1,
    decreases pairs.len(),
{
    if i < pairs.len() - 1 {
        let fewer = pairs.drop_last();
        assert(pairs[pairs.len() - 1].0 != key);
        assert(is_last_for(fewer, key, i)) by {
            assert forall|j: int| i < j < fewer.len() implies (#[trigger] fewer[j]).0 != key by {
                assert(pairs[j].0 != key);
            }
        }
        the_last_pair_counts(fewer, key, i);
    }
}

/// Every text that is mapped is the first of a pair.
pub proof fn mapped_texts_are_those_of_pairs(
    pairs: Seq<(Seq<char>, Seq<char>)>,
    key: Seq<char>,
) -> (i: int)
    requires
        as_map(pairs).contains_key(key),
    ensures
        is_last_for(pairs, key, i),
    decreases pairs.len(),
{
    let last = pairs.len() - 1;
    if pairs[last].0 == key {
        last
    } else {
        let fewer = pairs.drop_last();
        let i = mapped_texts_are_those_of_pairs(fewer, key);
        assert forall|j: int| i < j < pairs.len() implies (#[trigger] pairs[j]).0 != key by {
            if j < last {
                assert(fewer[j].0 != key);
            }
        }
        i
    }
}

#[verifier::rlimit(50)]
proof fn lemma_first_member(members: Seq<(String, Answer)>, name: Seq<char>, i: int)
    requires
        0 <= i <= members.len(),
        forall|j: int| 0 <= j < i ==> (#[trigger] members[j]).0@ != name,
    ensures
        i < members.len() && members[i].0@ == name ==> member_of(members, name) == members[i].1,
        i == members.len() ==> member_of(members, name) is Other,
    decreases members.len(),
{
    if i > 0 {
        let rest = members.drop_first();
        assert(members[0].0@ != name);
        assert forall|j: int| 0 <= j < i - 1 implies (#[trigger] rest[j]).0@ != name by {
            assert(rest[j] == members[j + 1]);
        }
        lemma_first_member(rest, name, i - 1);
        if i < members.len() {
            assert(rest[i - 1] == members[i]);
        }
    }
}

/// Of the members of an object the first with the name counts; an object without
/// one, and what is no object, has nothing there.
pub proof fn the_first_member_counts(answer: Answer, name: Seq<char>, i: int)
    ensures
        answer !is Object ==> member(answer, name) is Other,
        answer matches Answer::Object(members) ==> (0 <= i <= members@.len() && (forall|j: int|
            0 <= j < i ==> (#[trigger] members@[j]).0@ != name) ==> {
            &&& i < members@.len() && members@[i].0@ == name ==> member(answer, name)
                == members@[i].1
            &&& i == members@.len() ==> member(answer, name) is Other
        }),
{
    if let Answer::Object(members) = answer {
        if 0 <= i <= members@.len() && (forall|j: int|
            0 <= j < i ==> (#[trigger] members@[j]).0@ != name) {
            lemma_first_member(members@, name, i);
        }
    }
}

/// A search names one title for each result under `query` and its own name: the
/// text under `title`, if there is one. An answer without such results names
/// none.
pub proof fn titles_are_those_of_the_results(answer: Answer, list: Seq<char>, i: int)
    ensures
        match member(member(answer, "query"@), list) {
            Answer::Array(results) => {
                &&& search_titles(answer, list).len() == results@.len()
                &&& 0 <= i < results@.len() ==> search_titles(answer, list)[i] == (match member(
                    results@[i],
                    "title"@,
                ) {
                    Answer::Text(title) => Some(title@),
                    _ => None,
                })
            },
            _ => search_titles(answer, list).len() == 0,
        },
{
}

/// What is asked about a place: files within a hundred meters of it, fifty at
/// most, in the namespace of files.
pub proof fn a_place_is_asked_about(lat: Seq<char>, lon: Seq<char>)
    ensures
        geosearch_params(lat, lon).len() == 6,
        geosearch_params(lat, lon).contains(("action"@, "query"@)),
        geosearch_params(lat, lon).contains(("list"@, "geosearch"@)),
        geosearch_params(lat, lon).contains(("gscoord"@, lat + seq!['|'] + lon)),
        geosearch_params(lat, lon).contains(("gsradius"@, "100"@)),
        geosearch_params(lat, lon).contains(("gslimit"@, "50"@)),
        geosearch_params(lat, lon).contains(("gsnamespace"@, "6"@)),
{
    let params = geosearch_params(lat, lon);
    reveal_strlit("|");
    reveal_strlit("100");
    reveal_with_fuel(decimal, 4);
    assert("|"@ =~= seq!['|']);
    assert(decimal(100) =~= "100"@);
    assert(params[0] == ("action"@, "query"@));
    assert(params[1] == ("list"@, "geosearch"@));
    assert(params[2] == ("gscoord"@, lat + seq!['|'] + lon));
    assert(params[3] == ("gsradius"@, "100"@));
    assert(params[4] == ("gslimit"@, "50"@));
    assert(params[5] == ("gsnamespace"@, "6"@));
}

/// What is asked about a label: the label as it is, in the namespace of files.
pub proof fn a_label_is_asked_about(label: Seq<char>)
    ensures
        search_params(label).len() == 4,
        search_params(label).contains(("action"@, "query"@)),
        search_params(label).contains(("list"@, "search"@)),
        search_params(label).contains(("srnamespace"@, "6"@)),
        search_params(label).contains(("srsearch"@, label)),
{
    let params = search_params(label);
    assert(params[0] == ("action"@, "query"@));
    assert(params[1] == ("list"@, "search"@));
    assert(params[2] == ("srnamespace"@, "6"@));
    assert(params[3] == ("srsearch"@, label));
}

/// Whether a text starts with a text, goes on with a second, and ends with a
/// third.
pub open spec fn made_of(s: Seq<char>, start: Seq<char>, middle: Seq<char>, end: Seq<char>) -> bool {
    s == start + middle + end
}

/// What each query asks for, with the placeholders of a batch in the one place
/// where keys are listed.
#[verifier::rlimit(50)]
pub proof fn queries_ask_for_their_keys(wiki: Seq<char>, p: Seq<char>)
    ensures
        made_of(
            query_text(QueryView::LanguageLinks, p),
            "SELECT ips_item_id,ips_site_id,ips_site_page FROM wb_items_per_site WHERE ips_item_id IN ("@,
            p,
            ")"@,
        ),
        made_of(
            query_text(QueryView::PageImages, p),
            "SELECT page_title,pp_value FROM page,page_props WHERE page_id=pp_page AND page_namespace=0 AND pp_propname='page_image_free' AND page_title IN ("@,
            p,
            ")"@,
        ),
        made_of(
            query_text(QueryView::Coordinates, p),
            "SELECT page_title,gt_lat,gt_lon FROM geo_tags,page WHERE page_namespace=0 AND page_id=gt_page_id AND gt_globe='earth' AND gt_primary=1 AND page_title IN ("@,
            p,
            ")"@,
        ),
        made_of(
            query_text(QueryView::Labels, p),
            "SELECT term_full_entity_id,term_text FROM wb_terms WHERE term_entity_type='item' AND term_language='en' AND term_type='label' AND term_full_entity_id IN ("@,
            p,
            ")"@,
        ),
        made_of(
            query_text(QueryView::IgnoredFiles, p),
            "SELECT concat('Q',q),CONVERT(`file` USING utf8) FROM s51218__wdfist_p.ignore_files WHERE q IN ("@,
            p,
            ")"@,
        ),
        made_of(
            query_text(QueryView::UsedFiles, p),
            "SELECT DISTINCT il_to FROM imagelinks WHERE il_from_namespace=0 AND il_to IN ("@,
            p,
            ")"@,
        ),
        made_of(
            query_text(QueryView::ImageLinks { wiki }, p),
            "SELECT DISTINCT gil_page_title AS page,gil_to AS image FROM page,globalimagelinks WHERE gil_wiki='"@,
            wiki,
            "' AND gil_page_title IN ("@ + p + ")"@
                + " AND gil_page_namespace_id=0 AND page_namespace=6 and page_title=gil_to AND page_is_redirect=0"@
                + " AND NOT EXISTS (SELECT * FROM categorylinks where page_id=cl_from and cl_to='Crop_for_Wikidata')"@,
        ),
        made_of(
            query_text(QueryView::Items { without_p18: false }, p),
            "SELECT page_title FROM page WHERE page_namespace=0 AND page_is_redirect=0 AND page_title IN ("@,
            p,
            ")"@
                + " AND NOT EXISTS (SELECT * FROM pagelinks WHERE pl_from=page_id AND pl_namespace=0 AND pl_title IN ('Q13406463','Q4167410'))"@,
        ),
        made_of(
            query_text(QueryView::Items { without_p18: true }, p),
            "SELECT page_title FROM page WHERE page_namespace=0 AND page_is_redirect=0 AND page_title IN ("@,
            p,
            ")"@
                + " AND NOT EXISTS (SELECT * FROM pagelinks WHERE pl_from=page_id AND pl_namespace=120 AND pl_title='P18')"@
                + " AND NOT EXISTS (SELECT * FROM pagelinks WHERE pl_from=page_id AND pl_namespace=0 AND pl_title IN ('Q13406463','Q4167410'))"@,
        ),
        made_of(
            ignore_query_text(),
            "SELECT CONVERT(`file` USING utf8) FROM s51218__wdfist_p.ignore_files GROUP BY file HAVING count(*)>="@,
            seq!['3'],
            Seq::empty(),
        ),
{
    assert(query_text(QueryView::Items { without_p18: false }, p)
        =~= "SELECT page_title FROM page WHERE page_namespace=0 AND page_is_redirect=0 AND page_title IN ("@
        + p + (")"@
        + " AND NOT EXISTS (SELECT * FROM pagelinks WHERE pl_from=page_id AND pl_namespace=0 AND pl_title IN ('Q13406463','Q4167410'))"@));
    assert(query_text(QueryView::Items { without_p18: true }, p)
        =~= "SELECT page_title FROM page WHERE page_namespace=0 AND page_is_redirect=0 AND page_title IN ("@
        + p + (")"@
        + " AND NOT EXISTS (SELECT * FROM pagelinks WHERE pl_from=page_id AND pl_namespace=120 AND pl_title='P18')"@
        + " AND NOT EXISTS (SELECT * FROM pagelinks WHERE pl_from=page_id AND pl_namespace=0 AND pl_title IN ('Q13406463','Q4167410'))"@));
    assert(query_text(QueryView::ImageLinks { wiki }, p)
        =~= "SELECT DISTINCT gil_page_title AS page,gil_to AS image FROM page,globalimagelinks WHERE gil_wiki='"@
        + wiki + ("' AND gil_page_title IN ("@ + p + ")"@
        + " AND gil_page_namespace_id=0 AND page_namespace=6 and page_title=gil_to AND page_is_redirect=0"@
        + " AND NOT EXISTS (SELECT * FROM categorylinks where page_id=cl_from and cl_to='Crop_for_Wikidata')"@));
    assert(decimal(3) =~= seq!['3']);
    assert(ignore_query_text()
        =~= "SELECT CONVERT(`file` USING utf8) FROM s51218__wdfist_p.ignore_files GROUP BY file HAVING count(*)>="@
        + seq!['3'] + Seq::empty());
}

/// Keys lose the character that they start with, if it takes one byte, and
/// nothing else, each in its place.
pub proof fn keys_lose_their_letter(keys: Seq<Seq<char>>, i: int, letter: char, rest: Seq<char>)
    requires
        0 <= i < keys.len(),
        keys[i] == seq![letter] + rest,
        encode_utf8(seq![letter]).len() == 1,
    ensures
        without_first_bytes(keys).len() == keys.len(),
        without_first_bytes(keys)[i] == rest,
        cuttable(keys[i], 1),
{
    start_is_cut(seq![letter], rest);
}

/// Why lists are not merged: exactly if there is no other list, if one of the two
/// has no wiki, or if they are of different wikis; and what the message is.
pub proof fn lists_of_one_wiki_are_merged(list: PageList, other: PageList)
    ensures
        merge_error(list, None) == Some("PageList::check_before_merging pagelist is None"@),
        merge_error(list, Some(other)) is None <==> list.wiki is Some && other.wiki is Some
            && list.wiki.unwrap()@ == other.wiki.unwrap()@,
        list.wiki is None ==> merge_error(list, Some(other)) == Some(
            "PageList::check_before_merging self.wiki is not set"@,
        ),
        list.wiki is Some && other.wiki is None ==> merge_error(list, Some(other)) == Some(
            "PageList::check_before_merging pagelist.wiki is not set"@,
        ),
        list.wiki is Some && other.wiki is Some && list.wiki.unwrap()@ != other.wiki.unwrap()@
            ==> merge_error(list, Some(other)) == Some(
            "PageList::check_before_merging wikis are not identical: "@ + list.wiki.unwrap()@
                + seq!['/'] + other.wiki.unwrap()@,
        ),
{
    reveal_strlit("/");
    assert("/"@ =~= seq!['/']);
}

/// The entries of merged lists are entries of the two, unchanged.
pub proof fn merged_entries_are_unchanged(
    m: Map<(int, Seq<char>), EntryView>,
    a: Map<(int, Seq<char>), EntryView>,
    b: Map<(int, Seq<char>), EntryView>,
    title: (int, Seq<char>),
)
    requires
        entries_from(m, a, b),
        m.contains_key(title),
    ensures
        a.contains_key(title) || b.contains_key(title),
        !b.contains_key(title) ==> m[title] == a[title],
        !a.contains_key(title) ==> m[title] == b[title],
        a.contains_key(title) && b.contains_key(title) ==> m[title] == a[title] || m[title]
            == b[title],
{
}

/// The items of a list are its pages in the main namespace, and no others.
pub proof fn items_are_pages_in_the_main_namespace(
    m: Map<(int, Seq<char>), EntryView>,
    name: Seq<char>,
)
    ensures
        main_names(m).contains(name) <==> m.contains_key((0int, name)),
{
}

/// Which pages merged lists have: the union those of either list, the intersection
/// those of both, the difference those of the one that the other has not, with
/// their own entries. No entry is made up.
pub proof fn merged_lists_have_the_right_pages(
    after: Map<(int, Seq<char>), EntryView>,
    mine: Map<(int, Seq<char>), EntryView>,
    theirs: Map<(int, Seq<char>), EntryView>,
    title: (int, Seq<char>),
)
    ensures
        is_union(after, mine, theirs) ==> (after.contains_key(title) <==> mine.contains_key(title)
            || theirs.contains_key(title)),
        is_intersection(after, mine, theirs) ==> (after.contains_key(title) <==> mine.contains_key(
            title,
        ) && theirs.contains_key(title)),
        is_difference(after, mine, theirs) ==> (after.contains_key(title) <==> mine.contains_key(
            title,
        ) && !theirs.contains_key(title)),
        is_difference(after, mine, theirs) && after.contains_key(title) ==> after[title]
            == mine[title],
        (is_union(after, mine, theirs) || is_intersection(after, mine, theirs))
            && after.contains_key(title) ==> {
            ||| mine.contains_key(title) && after[title] == mine[title]
            ||| theirs.contains_key(title) && after[title] == theirs[title]
        },
{
    if is_union(after, mine, theirs) {
        assert(after.dom().contains(title) <==> mine.dom().union(theirs.dom()).contains(title));
    }
    if is_intersection(after, mine, theirs) {
        assert(after.dom().contains(title) <==> mine.dom().intersect(theirs.dom()).contains(title));
    }
}

/// Which lists and entries are equal: lists of one wiki, or of none, with the same
/// pages, and entries with the same namespace and name.
pub proof fn equal_lists_have_equal_pages(
    a: PageList,
    b: PageList,
    entry: PageListEntry,
    other: PageListEntry,
)
    ensures
        a.eq_spec(&b) <==> {
            &&& a.wiki is Some <==> b.wiki is Some
            &&& a.wiki is Some ==> a.wiki.unwrap()@ == b.wiki.unwrap()@
            &&& forall|title: (int, Seq<char>)| #[trigger]
                a.entries@.contains_key(title) <==> b.entries@.contains_key(title)
        },
        entry.eq_spec(&other) <==> entry@.title.0 == other@.title.0 && entry@.title.1
            == other@.title.1,
{
    if forall|title: (int, Seq<char>)| #[trigger]
        a.entries@.contains_key(title) <==> b.entries@.contains_key(title) {
        assert(a.entries@.dom() =~= b.entries@.dom());
    }
    if a.entries@.dom() == b.entries@.dom() {
        assert forall|title: (int, Seq<char>)| #[trigger]
            a.entries@.contains_key(title) <==> b.entries@.contains_key(title) by {
            assert(a.entries@.dom().contains(title) <==> b.entries@.dom().contains(title));
        }
    }
}

/// What a search starts from: there is one exactly if there is no list or it is
/// one of Wikidata's pages. Its items are the pages of the list in the main
/// namespace, each once and in order, and it knows nothing else.
pub proof fn a_search_starts_from_its_list(
    fist: Option<FistView>,
    params: Map<Seq<char>, Seq<char>>,
    result: Option<PageList>,
    name: Seq<char>,
)
    requires
        starts_from(fist, params, result),
    ensures
        fist is None <==> (result matches Some(list) && !(list.wiki matches Some(wiki) && wiki@
            == "wikidatawiki"@)),
        fist matches Some(s) ==> {
            &&& s.items.contains(name) <==> (result matches Some(list)
                && list.entries@.contains_key((0int, name)))
            &&& forall|i: int, j: int|
                0 <= i < j < s.items.len() ==> #[trigger] s.items[i] != #[trigger] s.items[j]
                    && text_le(s.items[i], s.items[j])
            &&& s.item2files.dom() == Set::<Seq<char>>::empty()
            &&& s.ignored == Set::<Seq<char>>::empty()
            &&& s.params == params
            &&& !s.allow_svg
            &&& !s.only_jpeg
            &&& s.phase is Idle
        },
{
    if let Some(s) = fist {
        assert(s.items.contains(name) <==> s.items.to_set().contains(name));
        assert(s.item2files.dom() =~= Set::<Seq<char>>::empty());
    }
}

/// Which queries know items by their numbers: with the keys the one for files to
/// ignore, with the values the one for language links. All others are asked with
/// what they are given.
pub proof fn two_queries_know_items_by_number(
    query: QueryView,
    keys: Seq<Seq<char>>,
    i: int,
    rest: Seq<char>,
)
    requires
        0 <= i < keys.len(),
        keys[i] == seq!['Q'] + rest,
    ensures
        asked_keys(query, keys).len() == keys.len(),
        asked_keys(query, keys)[i] == (if query is IgnoredFiles {
            rest
        } else {
            keys[i]
        }),
        asked_values(query, keys).len() == keys.len(),
        asked_values(query, keys)[i] == (if query is LanguageLinks {
            rest
        } else {
            keys[i]
        }),
{
    crate::laws::ascii_start_is_cut(seq!['Q'], rest);
}

/// What a query asks for does not depend on the strings that hold it, only on
/// what they say: nothing of it is lost or changed.
pub proof fn queries_mean_what_they_say(query: Query)
    ensures
        match query {
            Query::Items { without_p18 } => query@ matches QueryView::Items { without_p18: w } && w
                == without_p18,
            Query::LanguageLinks => query@ is LanguageLinks,
            Query::ImageLinks { wiki } => query@ matches QueryView::ImageLinks { wiki: w } && w
                == wiki@,
            Query::PageImages => query@ is PageImages,
            Query::Coordinates => query@ is Coordinates,
            Query::Labels => query@ is Labels,
            Query::IgnoredFiles => query@ is IgnoredFiles,
            Query::UsedFiles => query@ is UsedFiles,
        },
{
}

} // verus!

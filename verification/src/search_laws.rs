//! What a search finds at its sources: whom it asks about what, and which files
//! become known for which items.
use crate::answer::{file_of_title, files_for, pair_texts, search_titles, titles_cuttable};
use crate::file_laws::knows;
use crate::files::{count_of, lemma_count_bound, room_for};
use crate::laws::files_known_after;
use crate::links::{as_map, grouped, item_id, link_texts, linked, those_in};
use crate::phase::{LinkView, PhaseView, Reply, Request, SearchReply, Step};
use crate::query::Query;
use crate::row_laws::{
    a_label_is_asked_about, a_place_is_asked_about, is_page_title, language_links_are_sorted,
    row_tells,
};
use crate::run::{awaits, first_texts, list_name, lists_groups, next_wiki, run_step};
use crate::source_laws::{
    all_told, asks_for, databases_tell, files_on_wiki, files_on_wikis, files_told, in_the_middle,
    items_are_searched_in_turn, last_error, lemma_in_the_middle, lemma_linked_contains,
    lemma_on_some_wiki, search_jobs, source_adds_what_it_was_told, whole_source,
    wikis_are_asked_in_turn,
};
use crate::step_laws::{hold_each_once, lemma_hold_each_once};
use crate::text::{cuttable, replaced};
use crate::text_laws::{says_something, set_parameters_say_something, start_is_cut};
use crate::wdfist::{flag, FistView};
use vstd::prelude::*;
use vstd::utf8::encode_utf8;

verus! {

broadcast use vstd::seq_lib::group_seq_properties;

/// Whether a request has a parameter with the value.
pub open spec fn has_param(
    params: Seq<(String, String)>,
    name: Seq<char>,
    value: Seq<char>,
) -> bool {
    exists|i: int| 0 <= i < params.len() && (#[trigger] params[i]).0@ == name && params[i].1@ == value
}

proof fn lemma_has_param(
    params: Seq<(String, String)>,
    wanted: Seq<(Seq<char>, Seq<char>)>,
    name: Seq<char>,
    value: Seq<char>,
)
    requires
        pair_texts(params) == wanted,
        wanted.contains((name, value)),
    ensures
        has_param(params, name, value),
{
    let i = choose|i: int| 0 <= i < wanted.len() && wanted[i] == (name, value);
    assert(pair_texts(params)[i] == (params[i].0@, params[i].1@));
}

/// Every item with a label is searched for by its own label, from the last to the
/// first: what is asked while the search is at an item is asked of Commons, for
/// the label of the same row.
#[verifier::rlimit(50)]
pub proof fn each_label_is_searched_for_its_item(
    states: Seq<FistView>,
    replies: Seq<Reply>,
    steps: Seq<Step>,
    rows: Vec<(String, String)>,
    i: int,
)
    requires
        whole_source(states, replies, steps),
        states[0].phase is Labels,
        replies[0] == Reply::Pairs(Ok(rows)),
        0 <= i < rows@.len(),
    ensures
        replies.len() == rows@.len() + 1,
        ({
            let k = rows@.len() - i;
            &&& states[k].phase matches PhaseView::Search(work) && work.item == rows@[i].0@
                && !work.nearby
            &&& match steps[k - 1] {
                Step::Ask(Request::Search { api, params }) => {
                    &&& api@ == "https://commons.wikimedia.org/w/api.php"@
                    &&& params@.len() == 4
                    &&& has_param(params@, "action"@, "query"@)
                    &&& has_param(params@, "list"@, "search"@)
                    &&& has_param(params@, "srnamespace"@, "6"@)
                    &&& has_param(params@, "srsearch"@, rows@[i].1@)
                },
                _ => false,
            }
        }),
{
    items_are_searched_in_turn(states, replies, steps, replies.len());
    let k = (rows@.len() - i) as nat;
    let jobs = search_jobs(replies[0]);
    items_are_searched_in_turn(states, replies, steps, k);
    lemma_in_the_middle(states, replies, steps, k);
    assert(asks_for(states[k as int], steps[k - 1], jobs, i as nat));
    a_label_is_asked_about(rows@[i].1@);
    if let Step::Ask(Request::Search { api, params }) = steps[k - 1] {
        let wanted = jobs[i].1;
        lemma_has_param(params@, wanted, "action"@, "query"@);
        lemma_has_param(params@, wanted, "list"@, "search"@);
        lemma_has_param(params@, wanted, "srnamespace"@, "6"@);
        lemma_has_param(params@, wanted, "srsearch"@, rows@[i].1@);
        assert(pair_texts(params@).len() == params@.len());
    }
}

/// Every item with a place is searched for by its own place, from the last to the
/// first: what is asked while the search is at an item is asked of Commons, for
/// the place of the same row, a hundred meters around it.
#[verifier::rlimit(50)]
pub proof fn each_place_is_searched_for_its_item(
    states: Seq<FistView>,
    replies: Seq<Reply>,
    steps: Seq<Step>,
    rows: Vec<(String, String, String)>,
    i: int,
)
    requires
        whole_source(states, replies, steps),
        states[0].phase is Coordinates,
        replies[0] == Reply::Coordinates(Ok(rows)),
        0 <= i < rows@.len(),
    ensures
        replies.len() == rows@.len() + 1,
        ({
            let k = rows@.len() - i;
            &&& states[k].phase matches PhaseView::Search(work) && work.item == rows@[i].0@
                && work.nearby
            &&& match steps[k - 1] {
                Step::Ask(Request::Search { api, params }) => {
                    &&& api@ == "https://commons.wikimedia.org/w/api.php"@
                    &&& params@.len() == 6
                    &&& has_param(params@, "action"@, "query"@)
                    &&& has_param(params@, "list"@, "geosearch"@)
                    &&& has_param(
                        params@,
                        "gscoord"@,
                        rows@[i].1@ + seq!['|'] + rows@[i].2@,
                    )
                    &&& has_param(params@, "gsradius"@, "100"@)
                    &&& has_param(params@, "gslimit"@, "50"@)
                    &&& has_param(params@, "gsnamespace"@, "6"@)
                },
                _ => false,
            }
        }),
{
    items_are_searched_in_turn(states, replies, steps, replies.len());
    let k = (rows@.len() - i) as nat;
    let jobs = search_jobs(replies[0]);
    items_are_searched_in_turn(states, replies, steps, k);
    lemma_in_the_middle(states, replies, steps, k);
    assert(asks_for(states[k as int], steps[k - 1], jobs, i as nat));
    a_place_is_asked_about(rows@[i].1@, rows@[i].2@);
    if let Step::Ask(Request::Search { api, params }) = steps[k - 1] {
        let wanted = jobs[i].1;
        lemma_has_param(params@, wanted, "action"@, "query"@);
        lemma_has_param(params@, wanted, "list"@, "geosearch"@);
        lemma_has_param(params@, wanted, "gscoord"@, rows@[i].1@ + seq!['|'] + rows@[i].2@);
        lemma_has_param(params@, wanted, "gsradius"@, "100"@);
        lemma_has_param(params@, wanted, "gslimit"@, "50"@);
        lemma_has_param(params@, wanted, "gsnamespace"@, "6"@);
        assert(pair_texts(params@).len() == params@.len());
    }
}

/// Whether one of the titles that an answer names is that of the file.
pub open spec fn titles_name(titles: Seq<Option<Seq<char>>>, file: Seq<char>) -> bool {
    exists|i: int|
        0 <= i < titles.len() && ((#[trigger] titles[i]) matches Some(t) && file_of_title(t)
            == file)
}

proof fn lemma_titles_name(
    item: Seq<char>,
    titles: Seq<Option<Seq<char>>>,
    q: Seq<char>,
    file: Seq<char>,
)
    ensures
        files_for(item, titles).contains((q, file)) <==> q == item && titles_name(titles, file),
    decreases titles.len(),
{
    if titles.len() > 0 {
        let fewer = titles.drop_last();
        lemma_titles_name(item, fewer, q, file);
        let (before, all) = (files_for(item, fewer), files_for(item, titles));
        assert(titles[titles.len() - 1] == titles.last());
        if before.contains((q, file)) {
            let i = choose|i: int|
                0 <= i < fewer.len() && ((#[trigger] fewer[i]) matches Some(t) && file_of_title(t)
                    == file);
            assert(titles[i] == fewer[i]);
            let k = choose|k: int| 0 <= k < before.len() && before[k] == (q, file);
            assert(all[k] == (q, file));
        }
        if titles.last() is Some {
            assert(all[all.len() - 1] == (item, file_of_title(titles.last().unwrap())));
        }
        if titles_name(titles, file) {
            let i = choose|i: int|
                0 <= i < titles.len() && ((#[trigger] titles[i]) matches Some(t) && file_of_title(t)
                    == file);
            if i < fewer.len() {
                assert(fewer[i] == titles[i]);
            }
        }
    }
}

proof fn lemma_all_told_contains(
    states: Seq<FistView>,
    replies: Seq<Reply>,
    n: nat,
    pair: (Seq<char>, Seq<char>),
)
    ensures
        all_told(states, replies, n).contains(pair) <==> exists|k: int|
            0 <= k < n && files_told(states[k], #[trigger] replies[k]).contains(pair),
    decreases n,
{
    if n > 0 {
        let m = (n - 1) as nat;
        lemma_all_told_contains(states, replies, m, pair);
        let before = all_told(states, replies, m);
        let more = files_told(states[n - 1], replies[n - 1]);
        let all = all_told(states, replies, n);
        if before.contains(pair) {
            let i = choose|i: int| 0 <= i < before.len() && before[i] == pair;
            assert(all[i] == pair);
        }
        if more.contains(pair) {
            let i = choose|i: int| 0 <= i < more.len() && more[i] == pair;
            assert(all[before.len() + i] == pair);
        }
        if all.contains(pair) && !before.contains(pair) {
            let i = choose|i: int| 0 <= i < all.len() && all[i] == pair;
            if i < before.len() {
                assert(before[i] == pair);
            }
            assert(more[i - before.len()] == pair);
        }
    }
}

/// Whether a reply to a search for the item names the file.
pub open spec fn answer_names(reply: Reply, list: Seq<char>, file: Seq<char>) -> bool {
    match reply {
        Reply::Search(SearchReply::Answer(answer)) => titles_name(
            search_titles(answer, list),
            file,
        ),
        _ => false,
    }
}

proof fn lemma_searched(
    states: Seq<FistView>,
    replies: Seq<Reply>,
    steps: Seq<Step>,
    item: Seq<char>,
    file: Seq<char>,
)
    requires
        whole_source(states, replies, steps),
        states[0].phase is Coordinates || states[0].phase is Labels,
        steps.last() is Ask,
    ensures
        knows(states.last().item2files, item, file) <==> knows(states[0].item2files, item, file)
            || states[0].valid(file) && exists|k: int|
            0 < k < replies.len() && answer_names(
                #[trigger] replies[k],
                if states[0].phase is Coordinates {
                    "geosearch"@
                } else {
                    "search"@
                },
                file,
            ) && (states[k].phase matches PhaseView::Search(work) && work.item == item),
        error_free(states, replies),
{
    let n = replies.len();
    let over = FistView { phase: PhaseView::Idle, ..states[0] };
    let list = if states[0].phase is Coordinates {
        "geosearch"@
    } else {
        "search"@
    };
    source_adds_what_it_was_told(states, replies, steps);
    files_known_after(over, all_told(states, replies, n), item, file);
    lemma_all_told_contains(states, replies, n, (item, file));
    assert forall|k: int| 0 <= k < n implies (files_told(
        states[k],
        #[trigger] replies[k],
    ).contains((item, file)) <==> k > 0 && answer_names(replies[k], list, file) && (
    states[k].phase matches PhaseView::Search(work) && work.item == item)) by {
        if k > 0 {
            lemma_in_the_middle(states, replies, steps, k as nat);
            if let PhaseView::Search(work) = states[k].phase {
                if let Reply::Search(SearchReply::Answer(answer)) = replies[k] {
                    lemma_titles_name(work.item, search_titles(answer, list), item, file);
                }
            }
        }
    }
}

/// Whether no reply told of an error.
pub open spec fn error_free(states: Seq<FistView>, replies: Seq<Reply>) -> bool {
    last_error(states, replies, replies.len()) is None
}

/// Which files become known by labels: for each item those valid ones that the
/// answer to the search for its own label names, and no others.
pub proof fn files_by_label_become_known(
    states: Seq<FistView>,
    replies: Seq<Reply>,
    steps: Seq<Step>,
    rows: Vec<(String, String)>,
    item: Seq<char>,
    file: Seq<char>,
)
    requires
        whole_source(states, replies, steps),
        states[0].phase is Labels,
        replies[0] == Reply::Pairs(Ok(rows)),
        steps.last() is Ask,
    ensures
        replies.len() == rows@.len() + 1,
        knows(states.last().item2files, item, file) <==> knows(states[0].item2files, item, file)
            || states[0].valid(file) && exists|i: int|
            0 <= i < rows@.len() && (#[trigger] rows@[i]).0@ == item && answer_names(
                replies[rows@.len() - i],
                "search"@,
                file,
            ),
{
    lemma_searched(states, replies, steps, item, file);
    items_are_searched_in_turn(states, replies, steps, replies.len());
    if exists|k: int|
        0 < k < replies.len() && answer_names(#[trigger] replies[k], "search"@, file) && (
        states[k].phase matches PhaseView::Search(work) && work.item == item) {
        let k = choose|k: int|
            0 < k < replies.len() && answer_names(#[trigger] replies[k], "search"@, file) && (
            states[k].phase matches PhaseView::Search(work) && work.item == item);
        let i = rows@.len() - k;
        each_label_is_searched_for_its_item(states, replies, steps, rows, i);
        assert(rows@[i].0@ == item);
    }
    if exists|i: int|
        0 <= i < rows@.len() && (#[trigger] rows@[i]).0@ == item && answer_names(
            replies[rows@.len() - i],
            "search"@,
            file,
        ) {
        let i = choose|i: int|
            0 <= i < rows@.len() && (#[trigger] rows@[i]).0@ == item && answer_names(
                replies[rows@.len() - i],
                "search"@,
                file,
            );
        each_label_is_searched_for_its_item(states, replies, steps, rows, i);
        let k = rows@.len() - i;
        assert(answer_names(replies[k], "search"@, file));
    }
}

/// Which files become known by places: for each item those valid ones that the
/// answer to the search around its own place names, and no others.
pub proof fn files_by_place_become_known(
    states: Seq<FistView>,
    replies: Seq<Reply>,
    steps: Seq<Step>,
    rows: Vec<(String, String, String)>,
    item: Seq<char>,
    file: Seq<char>,
)
    requires
        whole_source(states, replies, steps),
        states[0].phase is Coordinates,
        replies[0] == Reply::Coordinates(Ok(rows)),
        steps.last() is Ask,
    ensures
        replies.len() == rows@.len() + 1,
        knows(states.last().item2files, item, file) <==> knows(states[0].item2files, item, file)
            || states[0].valid(file) && exists|i: int|
            0 <= i < rows@.len() && (#[trigger] rows@[i]).0@ == item && answer_names(
                replies[rows@.len() - i],
                "geosearch"@,
                file,
            ),
{
    lemma_searched(states, replies, steps, item, file);
    items_are_searched_in_turn(states, replies, steps, replies.len());
    if exists|k: int|
        0 < k < replies.len() && answer_names(#[trigger] replies[k], "geosearch"@, file) && (
        states[k].phase matches PhaseView::Search(work) && work.item == item) {
        let k = choose|k: int|
            0 < k < replies.len() && answer_names(#[trigger] replies[k], "geosearch"@, file) && (
            states[k].phase matches PhaseView::Search(work) && work.item == item);
        let i = rows@.len() - k;
        each_place_is_searched_for_its_item(states, replies, steps, rows, i);
        assert(rows@[i].0@ == item);
    }
    if exists|i: int|
        0 <= i < rows@.len() && (#[trigger] rows@[i]).0@ == item && answer_names(
            replies[rows@.len() - i],
            "geosearch"@,
            file,
        ) {
        let i = choose|i: int|
            0 <= i < rows@.len() && (#[trigger] rows@[i]).0@ == item && answer_names(
                replies[rows@.len() - i],
                "geosearch"@,
                file,
            );
        each_place_is_searched_for_its_item(states, replies, steps, rows, i);
        let k = rows@.len() - i;
        assert(answer_names(replies[k], "geosearch"@, file));
    }
}

/// What a row of language links says.
pub open spec fn said_by(row: (u64, String, String)) -> (u64, Seq<char>, Seq<char>) {
    (row.0, row.1@, row.2@)
}

/// Whether a row is about a page with the title in the wiki.
pub open spec fn is_about_page(
    row: (u64, Seq<char>, Seq<char>),
    wiki: Seq<char>,
    title: Seq<char>,
) -> bool {
    row.1 == wiki && is_page_title(title, row.2)
}

/// Whether the last row about a page of a wiki other than Wikidata gives it the
/// item.
pub open spec fn page_is_about(
    rows: Seq<(u64, String, String)>,
    wiki: Seq<char>,
    title: Seq<char>,
    item: Seq<char>,
) -> bool {
    exists|i: int|
        0 <= i < rows.len() && row_tells(said_by(#[trigger] rows[i]), wiki, title, item)
            && forall|j: int|
            i < j < rows.len() ==> !is_about_page(said_by(#[trigger] rows[j]), wiki, title)
}

/// Which item a page is about: the one that the last row about the page gives it,
/// where all spaces of the page's name are turned.
#[verifier::rlimit(50)]
pub proof fn pages_are_about_their_last_item(
    rows: Seq<(u64, String, String)>,
    wiki: Seq<char>,
    title: Seq<char>,
    item: Seq<char>,
)
    ensures
        ({
            let groups = grouped(link_texts(rows));
            groups.contains_key(wiki) && as_map(groups[wiki]).contains_key(title) && as_map(
                groups[wiki],
            )[title] == item
        }) <==> page_is_about(rows, wiki, title, item),
    decreases rows.len(),
{
    if rows.len() > 0 {
        let fewer = rows.drop_last();
        let last = said_by(rows.last());
        pages_are_about_their_last_item(fewer, wiki, title, item);
        let all = link_texts(rows);
        assert(all.drop_last() =~= link_texts(fewer));
        assert(all.last() == last);
        assert(rows[rows.len() - 1] == rows.last());
        assert(forall|i: int| 0 <= i < fewer.len() ==> fewer[i] == rows[i]);
        let turned = replaced(last.2, ' ', '_');
        assert(is_page_title(title, last.2) <==> title == turned) by {
            if is_page_title(title, last.2) {
                assert(title =~= turned);
            }
        }
        let before = grouped(link_texts(fewer));
        let groups = grouped(all);
        let ours = last.1 == wiki && wiki != "wikidatawiki"@;
        if ours {
            let known = if before.contains_key(wiki) {
                before[wiki]
            } else {
                Seq::empty()
            };
            let pair = (turned, item_id(last.0));
            assert(groups[wiki] == known.push(pair));
            assert(known.push(pair).drop_last() =~= known);
            assert(known.push(pair).last() == pair);
            assert(as_map(groups[wiki]) == as_map(known).insert(pair.0, pair.1));
            if !before.contains_key(wiki) {
                assert(as_map(known) =~= Map::empty());
            }
        } else {
            assert(groups.contains_key(wiki) == before.contains_key(wiki));
            assert(groups.contains_key(wiki) ==> groups[wiki] == before[wiki]);
        }
        if ours && title == turned {
            if item == item_id(last.0) {
                assert(row_tells(said_by(rows[rows.len() - 1]), wiki, title, item));
            }
            if page_is_about(rows, wiki, title, item) {
                let i = choose|i: int|
                    0 <= i < rows.len() && row_tells(
                        said_by(#[trigger] rows[i]),
                        wiki,
                        title,
                        item,
                    ) && forall|j: int|
                        i < j < rows.len() ==> !is_about_page(
                            said_by(#[trigger] rows[j]),
                            wiki,
                            title,
                        );
                if i < rows.len() - 1 {
                    assert(is_about_page(said_by(rows[rows.len() - 1]), wiki, title));
                }
            }
        } else {
            assert(!row_tells(last, wiki, title, item));
            if page_is_about(fewer, wiki, title, item) {
                let i = choose|i: int|
                    0 <= i < fewer.len() && row_tells(
                        said_by(#[trigger] fewer[i]),
                        wiki,
                        title,
                        item,
                    ) && forall|j: int|
                        i < j < fewer.len() ==> !is_about_page(
                            said_by(#[trigger] fewer[j]),
                            wiki,
                            title,
                        );
                assert(row_tells(said_by(rows[i]), wiki, title, item));
                assert forall|j: int| i < j < rows.len() implies !is_about_page(
                    said_by(#[trigger] rows[j]),
                    wiki,
                    title,
                ) by {
                    if j < fewer.len() {
                        assert(fewer[j] == rows[j]);
                    }
                }
            }
            if page_is_about(rows, wiki, title, item) {
                let i = choose|i: int|
                    0 <= i < rows.len() && row_tells(
                        said_by(#[trigger] rows[i]),
                        wiki,
                        title,
                        item,
                    ) && forall|j: int|
                        i < j < rows.len() ==> !is_about_page(
                            said_by(#[trigger] rows[j]),
                            wiki,
                            title,
                        );
                assert(i < fewer.len());
                assert(row_tells(said_by(fewer[i]), wiki, title, item));
                assert forall|j: int| i < j < fewer.len() implies !is_about_page(
                    said_by(#[trigger] fewer[j]),
                    wiki,
                    title,
                ) by {
                    assert(fewer[j] == rows[j]);
                }
            }
        }
    }
}

proof fn lemma_kept(
    rows: Seq<(Seq<char>, Seq<char>)>,
    others: Seq<(Seq<char>, Seq<char>)>,
    row: (Seq<char>, Seq<char>),
)
    ensures
        those_in(rows, others).contains(row) <==> rows.contains(row) && others.contains(row),
    decreases rows.len(),
{
    reveal(Seq::filter);
    if rows.len() > 0 {
        let fewer = rows.drop_last();
        lemma_kept(fewer, others, row);
        let (before, all) = (those_in(fewer, others), those_in(rows, others));
        assert(rows =~= fewer.push(rows.last()));
        assert(rows[rows.len() - 1] == rows.last());
        if fewer.contains(row) {
            let k = choose|k: int| 0 <= k < fewer.len() && fewer[k] == row;
            assert(rows[k] == row);
        }
        if before.contains(row) {
            let k = choose|k: int| 0 <= k < before.len() && before[k] == row;
            assert(all[k] == row);
        }
        if others.contains(rows.last()) {
            assert(all[all.len() - 1] == rows.last());
        }
        if rows.contains(row) && !fewer.contains(row) {
            assert(row == rows.last());
        }
    }
}

/// Whether a file stands on a page of the wiki, and, if page images alone are
/// wanted, is its page image.
pub open spec fn counts_on_page(
    images: Seq<(Seq<char>, Seq<char>)>,
    page_images: Seq<(Seq<char>, Seq<char>)>,
    only_page_images: bool,
    title: Seq<char>,
    file: Seq<char>,
) -> bool {
    images.contains((title, file)) && (only_page_images ==> page_images.contains((title, file)))
}

/// Which files become known by language links: for each item those valid ones
/// that stand on a page about it in some wiki other than Wikidata, or that are
/// the page image there if those alone are wanted, and no others.
#[verifier::rlimit(50)]
pub proof fn files_on_pages_become_known(
    states: Seq<FistView>,
    replies: Seq<Reply>,
    steps: Seq<Step>,
    rows: Vec<(u64, String, String)>,
    images: Map<Seq<char>, Seq<(Seq<char>, Seq<char>)>>,
    page_images: Map<Seq<char>, Seq<(Seq<char>, Seq<char>)>>,
    item: Seq<char>,
    file: Seq<char>,
)
    requires
        whole_source(states, replies, steps),
        states[0].phase is LanguageLinks,
        replies[0] == Reply::Links(Ok(rows)),
        databases_tell(states, replies, images, page_images),
        steps.last() is Ask,
    ensures
        knows(states.last().item2files, item, file) <==> knows(states[0].item2files, item, file)
            || states[0].valid(file) && exists|wiki: Seq<char>, title: Seq<char>|
            #[trigger] page_is_about(rows@, wiki, title, item) && counts_on_page(
                images[wiki],
                page_images[wiki],
                says_something(states[0].params, "wdf_only_page_images"@),
                title,
                file,
            ),
{
    let n = replies.len();
    let over = FistView { phase: PhaseView::Idle, ..states[0] };
    let only = flag(states[0].params, "wdf_only_page_images"@);
    let groups = grouped(link_texts(rows@));
    set_parameters_say_something(states[0].params, "wdf_only_page_images"@);
    source_adds_what_it_was_told(states, replies, steps);
    wikis_are_asked_in_turn(states, replies, steps, rows, images, page_images);
    let found = all_told(states, replies, n);
    let jobs = choose|jobs: Seq<(Seq<char>, Seq<(Seq<char>, Seq<char>)>)>|
        #![trigger lists_groups(jobs, groups)]
        lists_groups(jobs, groups) && found == files_on_wikis(jobs, images, page_images, only);
    files_known_after(over, found, item, file);
    lemma_on_some_wiki(jobs, images, page_images, only, (item, file));
    assert forall|wiki: Seq<char>| #[trigger] groups.contains_key(wiki) implies (files_on_wiki(
        (wiki, groups[wiki]),
        images,
        page_images,
        only,
    ).contains((item, file)) <==> exists|title: Seq<char>|
        #[trigger] page_is_about(rows@, wiki, title, item) && counts_on_page(
            images[wiki],
            page_images[wiki],
            only,
            title,
            file,
        )) by {
        let page2q = as_map(groups[wiki]);
        let told = if only {
            those_in(page_images[wiki], images[wiki])
        } else {
            images[wiki]
        };
        lemma_linked_contains(told, page2q, item, file);
        assert forall|title: Seq<char>| #[trigger] told.contains((title, file)) <==> counts_on_page(
            images[wiki],
            page_images[wiki],
            only,
            title,
            file,
        ) by {
            lemma_kept(page_images[wiki], images[wiki], (title, file));
        }
        if exists|title: Seq<char>|
            #[trigger] told.contains((title, file)) && page2q.contains_key(title) && page2q[title]
                == item {
            let title = choose|title: Seq<char>|
                #[trigger] told.contains((title, file)) && page2q.contains_key(title)
                    && page2q[title] == item;
            pages_are_about_their_last_item(rows@, wiki, title, item);
            assert(page_is_about(rows@, wiki, title, item));
        }
        if exists|title: Seq<char>|
            #[trigger] page_is_about(rows@, wiki, title, item) && counts_on_page(
                images[wiki],
                page_images[wiki],
                only,
                title,
                file,
            ) {
            let title = choose|title: Seq<char>|
                #[trigger] page_is_about(rows@, wiki, title, item) && counts_on_page(
                    images[wiki],
                    page_images[wiki],
                    only,
                    title,
                    file,
                );
            pages_are_about_their_last_item(rows@, wiki, title, item);
            assert(told.contains((title, file)));
        }
    }
    if exists|i: int|
        0 <= i < jobs.len() && files_on_wiki(
            #[trigger] jobs[i],
            images,
            page_images,
            only,
        ).contains((item, file)) {
        let i = choose|i: int|
            0 <= i < jobs.len() && files_on_wiki(
                #[trigger] jobs[i],
                images,
                page_images,
                only,
            ).contains((item, file));
        let wiki = jobs[i].0;
        assert(groups.contains_key(wiki));
        assert(jobs[i] == (wiki, groups[wiki]));
        let title = choose|title: Seq<char>|
            #[trigger] page_is_about(rows@, wiki, title, item) && counts_on_page(
                images[wiki],
                page_images[wiki],
                only,
                title,
                file,
            );
        assert(page_is_about(rows@, wiki, title, item));
    }
    if exists|wiki: Seq<char>, title: Seq<char>|
        #[trigger] page_is_about(rows@, wiki, title, item) && counts_on_page(
            images[wiki],
            page_images[wiki],
            only,
            title,
            file,
        ) {
        let (wiki, title) = choose|wiki: Seq<char>, title: Seq<char>|
            #[trigger] page_is_about(rows@, wiki, title, item) && counts_on_page(
                images[wiki],
                page_images[wiki],
                only,
                title,
                file,
            );
        pages_are_about_their_last_item(rows@, wiki, title, item);
        assert(groups.contains_key(wiki));
        let i = choose|i: int| 0 <= i < jobs.len() && (#[trigger] jobs[i]).0 == wiki;
        assert(jobs[i] == (wiki, groups[wiki]));
    }
}

/// The titles of the pages about items in a wiki.
pub open spec fn titles_of(rows: Seq<(u64, String, String)>, wiki: Seq<char>) -> Set<Seq<char>> {
    Set::new(|title: Seq<char>| exists|item: Seq<char>| page_is_about(rows, wiki, title, item))
}

/// The pages on which files have been found.
pub open spec fn pages_of(page_file: Seq<(Seq<char>, Seq<char>)>) -> Set<Seq<char>> {
    Set::new(|page: Seq<char>| exists|file: Seq<char>| page_file.contains((page, file)))
}

/// Whether a search is at one of the groups, with others pending.
spec fn is_at_group(
    work: LinkView,
    groups: Map<Seq<char>, Seq<(Seq<char>, Seq<char>)>>,
) -> bool {
    &&& groups.contains_key(work.wiki)
    &&& work.page2q == as_map(groups[work.wiki])
    &&& forall|i: int|
        0 <= i < work.pending.len() ==> groups.contains_key((#[trigger] work.pending[i]).0)
            && groups[work.pending[i].0] == work.pending[i].1
}

/// Whether a search works its way through the groups.
spec fn works_through(
    phase: PhaseView,
    groups: Map<Seq<char>, Seq<(Seq<char>, Seq<char>)>>,
) -> bool {
    match phase {
        PhaseView::ImageLinks(work) => is_at_group(work, groups),
        PhaseView::PageImages(work, _) => is_at_group(work, groups),
        _ => false,
    }
}

proof fn lemma_next_group(
    s: FistView,
    pending: Seq<(Seq<char>, Seq<(Seq<char>, Seq<char>)>)>,
    found: Seq<(Seq<char>, Seq<char>)>,
    error: Option<Seq<char>>,
    post: FistView,
    out: Step,
    groups: Map<Seq<char>, Seq<(Seq<char>, Seq<char>)>>,
)
    requires
        next_wiki(s, pending, found, error, post, out),
        in_the_middle(post.phase),
        forall|i: int|
            0 <= i < pending.len() ==> groups.contains_key((#[trigger] pending[i]).0)
                && groups[pending[i].0] == pending[i].1,
    ensures
        works_through(post.phase, groups),
{
    assert(pending.len() > 0);
    assert(pending.last() == pending[pending.len() - 1]);
    if let PhaseView::ImageLinks(work) = post.phase {
        assert forall|i: int| 0 <= i < work.pending.len() implies groups.contains_key(
            (#[trigger] work.pending[i]).0,
        ) && groups[work.pending[i].0] == work.pending[i].1 by {
            assert(work.pending[i] == pending[i]);
        }
    }
}

#[verifier::rlimit(50)]
proof fn lemma_wikis_of_rows(
    states: Seq<FistView>,
    replies: Seq<Reply>,
    steps: Seq<Step>,
    rows: Vec<(u64, String, String)>,
    k: nat,
)
    requires
        whole_source(states, replies, steps),
        states[0].phase is LanguageLinks,
        replies[0] == Reply::Links(Ok(rows)),
        0 < k < replies.len(),
    ensures
        works_through(states[k as int].phase, grouped(link_texts(rows@))),
    decreases k,
{
    let groups = grouped(link_texts(rows@));
    let i = k - 1;
    let reply = replies[i];
    let (s, post, out) = (states[i], states[k as int], steps[i]);
    let over = FistView { phase: PhaseView::Idle, ..s };
    assert(run_step(s, reply, post, out));
    assert(in_the_middle(post.phase));
    lemma_in_the_middle(states, replies, steps, k);
    if i == 0 {
        let jobs = choose|jobs: Seq<(Seq<char>, Seq<(Seq<char>, Seq<char>)>)>|
            lists_groups(jobs, groups) && #[trigger] next_wiki(
                over,
                jobs,
                Seq::empty(),
                None,
                post,
                out,
            );
        lemma_next_group(over, jobs, Seq::empty(), None, post, out, groups);
    } else {
        lemma_wikis_of_rows(states, replies, steps, rows, i as nat);
        match (s.phase, reply) {
            (PhaseView::ImageLinks(work), Reply::Pairs(Err(e))) => {
                lemma_next_group(over, work.pending, work.found, Some(e@), post, out, groups);
            },
            (PhaseView::ImageLinks(work), Reply::Pairs(Ok(rows))) => {
                if !flag(s.params, "wdf_only_page_images"@) {
                    let found = work.found + linked(pair_texts(rows@), work.page2q);
                    lemma_next_group(over, work.pending, found, work.error, post, out, groups);
                }
            },
            (PhaseView::PageImages(work, page_file), Reply::Pairs(Err(e))) => {
                lemma_next_group(over, work.pending, work.found, Some(e@), post, out, groups);
            },
            (PhaseView::PageImages(work, page_file), Reply::Pairs(Ok(rows))) => {
                let kept = those_in(pair_texts(rows@), page_file);
                let found = work.found + linked(kept, work.page2q);
                lemma_next_group(over, work.pending, found, work.error, post, out, groups);
            },
            _ => {},
        }
    }
}

/// Whom a search for files on pages asks about what: Commons about exactly the
/// pages about items in a wiki, each once; and then, if page images alone are
/// wanted, that wiki about exactly the pages on which there are files, each once.
#[verifier::rlimit(50)]
pub proof fn each_wiki_is_asked_about_its_pages(
    states: Seq<FistView>,
    replies: Seq<Reply>,
    steps: Seq<Step>,
    rows: Vec<(u64, String, String)>,
    k: int,
)
    requires
        whole_source(states, replies, steps),
        states[0].phase is LanguageLinks,
        replies[0] == Reply::Links(Ok(rows)),
        0 < k < replies.len(),
    ensures
        match states[k].phase {
            PhaseView::ImageLinks(work) => {
                &&& work.wiki != "wikidatawiki"@
                &&& match steps[k - 1] {
                    Step::Ask(Request::Query { wiki, query: Query::ImageLinks { wiki: of }, keys }) =>
                    {
                        &&& wiki@ == "commonswiki"@
                        &&& of@ == work.wiki
                        &&& hold_each_once(keys@, titles_of(rows@, work.wiki))
                    },
                    _ => false,
                }
            },
            PhaseView::PageImages(work, page_file) => {
                &&& says_something(states[0].params, "wdf_only_page_images"@)
                &&& match (steps[k - 1], replies[k - 1]) {
                    (Step::Ask(Request::Query { wiki, query, keys }), Reply::Pairs(Ok(found))) => {
                        &&& wiki@ == work.wiki
                        &&& query is PageImages
                        &&& page_file == pair_texts(found@)
                        &&& hold_each_once(keys@, pages_of(page_file))
                    },
                    _ => false,
                }
            },
            _ => false,
        },
{
    let groups = grouped(link_texts(rows@));
    let i = k - 1;
    let reply = replies[i];
    let (s, post, out) = (states[i], states[k], steps[i]);
    let over = FistView { phase: PhaseView::Idle, ..s };
    assert(run_step(s, reply, post, out));
    lemma_wikis_of_rows(states, replies, steps, rows, k as nat);
    lemma_in_the_middle(states, replies, steps, k as nat);
    set_parameters_say_something(s.params, "wdf_only_page_images"@);
    if i == 0 {
        let jobs = choose|jobs: Seq<(Seq<char>, Seq<(Seq<char>, Seq<char>)>)>|
            lists_groups(jobs, groups) && #[trigger] next_wiki(
                over,
                jobs,
                Seq::empty(),
                None,
                post,
                out,
            );
        assert(next_wiki(over, jobs, Seq::empty(), None, post, out));
    } else {
        lemma_wikis_of_rows(states, replies, steps, rows, i as nat);
        lemma_in_the_middle(states, replies, steps, i as nat);
    }
    match post.phase {
        PhaseView::ImageLinks(work) => {
            language_links_are_sorted(link_texts(rows@), work.wiki, Seq::empty(), Seq::empty());
            let titles = titles_of(rows@, work.wiki);
            assert forall|title: Seq<char>| titles.contains(title) <==> work.page2q.dom().contains(
                title,
            ) by {
                if work.page2q.contains_key(title) {
                    let item = work.page2q[title];
                    pages_are_about_their_last_item(rows@, work.wiki, title, item);
                    assert(page_is_about(rows@, work.wiki, title, item));
                }
                if exists|item: Seq<char>| page_is_about(rows@, work.wiki, title, item) {
                    let item = choose|item: Seq<char>|
                        page_is_about(rows@, work.wiki, title, item);
                    pages_are_about_their_last_item(rows@, work.wiki, title, item);
                }
            }
            assert(titles =~= work.page2q.dom());
            if let Step::Ask(Request::Query { wiki, query, keys }) = out {
                lemma_hold_each_once(keys@, titles);
            }
        },
        PhaseView::PageImages(work, page_file) => {
            let pages = pages_of(page_file);
            let firsts = first_texts(page_file);
            assert forall|page: Seq<char>| pages.contains(page) <==> firsts.to_set().contains(
                page,
            ) by {
                if exists|file: Seq<char>| page_file.contains((page, file)) {
                    let file = choose|file: Seq<char>| page_file.contains((page, file));
                    let j = choose|j: int| 0 <= j < page_file.len() && page_file[j] == (page, file);
                    assert(firsts[j] == page);
                }
                if firsts.contains(page) {
                    let j = choose|j: int| 0 <= j < firsts.len() && firsts[j] == page;
                    assert(page_file[j] == (page, page_file[j].1));
                    assert(page_file.contains((page, page_file[j].1)));
                }
            }
            assert(pages =~= firsts.to_set());
            if let Step::Ask(Request::Query { wiki, query, keys }) = out {
                lemma_hold_each_once(keys@, pages);
            }
        },
        _ => {},
    }
}

/// Whether a leading prefix of five bytes can be told from what follows it.
pub open spec fn has_prefix(title: Seq<char>) -> bool {
    exists|start: Seq<char>, name: Seq<char>|
        title == #[trigger] (start + name) && encode_utf8(start).len() == 5
}

/// Whether all titles that are texts have such a prefix.
pub open spec fn have_prefixes(titles: Seq<Option<Seq<char>>>) -> bool {
    forall|i: int|
        0 <= i < titles.len() ==> ((#[trigger] titles[i]) matches Some(t) ==> has_prefix(t))
}

/// A search takes every reply of the kind that it has asked for: always, where
/// nothing is counted yet; and else where titles have a prefix, and counts can
/// grow by all files that it has been told of.
pub proof fn replies_that_were_asked_for_are_taken(s: FistView, reply: Reply)
    ensures
        s.phase is Idle && reply is Begin ==> awaits(s, reply),
        s.phase is IgnorePage && reply is IgnorePage ==> awaits(s, reply),
        s.phase is IgnoreDatabase && reply is IgnoreDatabase ==> awaits(s, reply),
        s.phase is Items && reply is Rows ==> awaits(s, reply),
        s.phase is LanguageLinks && reply is Links ==> awaits(s, reply),
        s.phase is Coordinates && reply is Coordinates ==> awaits(s, reply),
        s.phase is Labels && reply is Pairs ==> awaits(s, reply),
        s.phase is IgnoredFiles && reply is IgnoredFiles ==> awaits(s, reply),
        s.phase is UsedFiles && reply is Rows ==> awaits(s, reply),
        s.phase matches PhaseView::ImageLinks(work) ==> reply is Pairs && (work.pending.len() > 0
            || can_grow(s, work.found.len() + files_told(s, reply).len())) ==> awaits(s, reply),
        s.phase matches PhaseView::PageImages(work, _) ==> reply is Pairs && (work.pending.len()
            > 0 || can_grow(s, work.found.len() + files_told(s, reply).len())) ==> awaits(
            s,
            reply,
        ),
        s.phase matches PhaseView::Search(work) ==> (reply matches Reply::Search(r) ==> (
        work.pending.len() > 0 || can_grow(s, work.found.len() + files_told(s, reply).len())) && (
        r matches SearchReply::Answer(answer) ==> have_prefixes(
            search_titles(answer, list_name(work.nearby)),
        )) ==> awaits(s, reply)),
{
    match s.phase {
        PhaseView::ImageLinks(work) => {
            let found = work.found + files_told(s, reply);
            if work.pending.len() == 0 && can_grow(s, found.len()) {
                lemma_can_grow(s, found);
            }
        },
        PhaseView::PageImages(work, _) => {
            let found = work.found + files_told(s, reply);
            if work.pending.len() == 0 && can_grow(s, found.len()) {
                lemma_can_grow(s, found);
            }
        },
        PhaseView::Search(work) => {
            let found = work.found + files_told(s, reply);
            assert(work.found + Seq::empty() =~= work.found);
            if work.pending.len() == 0 && can_grow(s, found.len()) {
                lemma_can_grow(s, found);
            }
            if let Reply::Search(SearchReply::Answer(answer)) = reply {
                let titles = search_titles(answer, list_name(work.nearby));
                if have_prefixes(titles) {
                    assert forall|i: int| 0 <= i < titles.len() implies ((
                    #[trigger] titles[i]) matches Some(t) ==> cuttable(t, 5)) by {
                        if let Some(t) = titles[i] {
                            assert(has_prefix(t));
                            let (start, name) = choose|start: Seq<char>, name: Seq<char>|
                                t == #[trigger] (start + name) && encode_utf8(start).len() == 5;
                            start_is_cut(start, name);
                        }
                    }
                    assert(titles_cuttable(titles));
                }
            }
        },
        _ => {},
    }
}

/// Whether every count can grow by `n`.
pub open spec fn can_grow(s: FistView, n: nat) -> bool {
    n <= usize::MAX && forall|item: Seq<char>, file: Seq<char>| #[trigger]
        knows(s.item2files, item, file) ==> s.item2files[item][file] + n <= usize::MAX
}

proof fn lemma_can_grow(s: FistView, found: Seq<(Seq<char>, Seq<char>)>)
    requires
        can_grow(s, found.len()),
    ensures
        room_for(s.item2files, found),
{
    assert forall|item: Seq<char>, file: Seq<char>| #[trigger] count_of(s.item2files, item, file)
        + found.to_multiset().count((item, file)) <= usize::MAX by {
        lemma_count_bound(found, (item, file));
        if knows(s.item2files, item, file) {
        }
    }
}

/// A search takes no reply of another kind than it has asked for.
pub proof fn other_replies_are_not_taken(s: FistView, reply: Reply)
    requires
        awaits(s, reply),
    ensures
        match s.phase {
            PhaseView::Idle => reply is Begin,
            PhaseView::IgnorePage => reply is IgnorePage,
            PhaseView::IgnoreDatabase => reply is IgnoreDatabase,
            PhaseView::Items => reply is Rows,
            PhaseView::LanguageLinks => reply is Links,
            PhaseView::ImageLinks(_) => reply is Pairs,
            PhaseView::PageImages(_, _) => reply is Pairs,
            PhaseView::Coordinates => reply is Coordinates,
            PhaseView::Labels => reply is Pairs,
            PhaseView::Search(_) => reply is Search,
            PhaseView::IgnoredFiles => reply is IgnoredFiles,
            PhaseView::UsedFiles => reply is Rows,
        },
{
}

} // verus!

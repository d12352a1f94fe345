//! What a search asks for and what it says, step by step.
use crate::file_laws::{
    is_unwanted, knows, only_files_to_ignore_are_gone, only_items_without_files_go,
    row_ignores, seeded_with, wanted_files_stay,
};
use crate::filename::normalized;
use crate::files::{is_listed, lists_files};
use crate::laws::{
    course, distance, lemma_finite_without, search_comes_to_an_end, search_keeps_its_rules,
};
use crate::links::{grouped, link_texts};
use crate::phase::{PageReply, PhaseView, Reply, Request, Step, ToolError};
use crate::query::Query;
use crate::row_laws::{
    batches_name, files_to_ignore_are_those_of_all_batches, queries_ask_for_their_keys,
};
use crate::run::{
    completes, listed_files, lists, lists_groups, next_wiki, proceeds, run_step,
};
use crate::text::texts;
use crate::text_laws::{says_something, set_parameters_say_something};
use crate::wdfist::{
    five_or_used, flag, listed_names, present, refusal, rows_to_ignore, without_pairs, FistView,
};
use vstd::prelude::*;

verus! {

broadcast use vstd::seq_lib::group_seq_properties;

/// Whether strings hold the texts, one by one.
pub open spec fn hold(strings: Seq<String>, keys: Seq<Seq<char>>) -> bool {
    &&& strings.len() == keys.len()
    &&& forall|i: int| 0 <= i < keys.len() ==> (#[trigger] strings[i])@ == keys[i]
}

/// Whether strings hold each text of a set once, and nothing else.
pub open spec fn hold_each_once(strings: Seq<String>, keys: Set<Seq<char>>) -> bool {
    &&& forall|i: int, j: int|
        0 <= i < j < strings.len() ==> (#[trigger] strings[i])@ != (#[trigger] strings[j])@
    &&& forall|i: int| 0 <= i < strings.len() ==> keys.contains((#[trigger] strings[i])@)
    &&& forall|key: Seq<char>| #[trigger]
        keys.contains(key) ==> exists|i: int|
            0 <= i < strings.len() && (#[trigger] strings[i])@ == key
}

proof fn lemma_hold(strings: Seq<String>)
    ensures
        hold(strings, texts(strings)),
{
}

/// Keys that list a set hold each of its texts once.
pub proof fn lemma_hold_each_once(strings: Seq<String>, keys: Set<Seq<char>>)
    requires
        lists(texts(strings), keys),
    ensures
        hold_each_once(strings, keys),
{
    let t = texts(strings);
    assert forall|i: int, j: int| 0 <= i < j < strings.len() implies (#[trigger] strings[i])@ != (
    #[trigger] strings[j])@ by {
        assert(t[i] != t[j]);
    }
    assert forall|i: int| 0 <= i < strings.len() implies keys.contains(
        (#[trigger] strings[i])@,
    ) by {
        assert(t[i] == strings[i]@);
        assert(t.to_set().contains(t[i]));
    }
    assert forall|key: Seq<char>| #[trigger] keys.contains(key) implies exists|i: int|
        0 <= i < strings.len() && (#[trigger] strings[i])@ == key by {
        assert(t.to_set().contains(key));
        let i = choose|i: int| 0 <= i < t.len() && t[i] == key;
        assert(strings[i]@ == key);
    }
}

/// Whether the search is over with a message.
pub open spec fn says(out: Step, message: Seq<char>) -> bool {
    match out {
        Step::Done(Err(e)) => e@ == message,
        _ => false,
    }
}

/// How a search begins: it sets its rules by its parameters; without items it is
/// over, and else it asks for the page with files to ignore. It changes nothing
/// else.
pub proof fn a_search_begins(s: FistView, post: FistView, out: Step)
    requires
        s.phase is Idle,
        run_step(s, Reply::Begin, post, out),
    ensures
        post.allow_svg <==> says_something(s.params, "wdf_allow_svg"@),
        post.only_jpeg <==> says_something(s.params, "wdf_only_jpeg"@),
        post.item2files == s.item2files,
        post.items == s.items,
        post.ignored == s.ignored,
        post.params == s.params,
        s.items.len() == 0 ==> post.phase is Idle && match out {
            Step::Done(Ok(result)) => result.status@ == "No items from original query"@
                && result.data@.len() == 0,
            _ => false,
        },
        s.items.len() > 0 ==> post.phase is IgnorePage && match out {
            Step::Ask(Request::Page { api, url }) => api@ == "https://www.wikidata.org/w/api.php"@
                && url@
                == "http://www.wikidata.org/w/index.php?title=User:Magnus_Manske/FIST_icons&action=raw"@,
            _ => false,
        },
{
    set_parameters_say_something(s.params, "wdf_allow_svg"@);
    set_parameters_say_something(s.params, "wdf_only_jpeg"@);
    if s.items.len() == 0 {
        if let Step::Done(Ok(result)) = out {
            lemma_lists_nothing(result.data@);
        }
    }
}

proof fn lemma_lists_nothing(rows: Seq<(String, Vec<(String, usize)>)>)
    requires
        lists_files(rows, Map::empty()),
    ensures
        rows.len() == 0,
{
    if rows.len() > 0 {
        assert(Map::<Seq<char>, Map<Seq<char>, usize>>::empty().contains_key(rows[0].0@));
    }
}

/// What becomes of the page with files to ignore: its files are ignored and the
/// database of such files is asked, or the search is over with a message that
/// says what went wrong.
pub proof fn the_page_is_taken_in(s: FistView, reply: PageReply, post: FistView, out: Step)
    requires
        s.phase is IgnorePage,
        run_step(s, Reply::IgnorePage(reply), post, out),
    ensures
        post == (FistView { ignored: post.ignored, phase: post.phase, ..s }),
        match reply {
            PageReply::NoApi => post.phase is Idle && post.ignored == s.ignored && says(
                out,
                "Can't open Wikidata API"@,
            ),
            PageReply::Failed(e) => post.phase is Idle && post.ignored == s.ignored && says(
                out,
                "Can't load ignore list from http://www.wikidata.org/w/index.php?title=User:Magnus_Manske/FIST_icons&action=raw : "@
                    + e@,
            ),
            PageReply::Text(wikitext) => {
                &&& post.phase is IgnoreDatabase
                &&& post.ignored == seeded_with(s, listed_names(wikitext@)).ignored
                &&& match out {
                    Step::Ask(Request::ToolDatabase { sql }) => sql@
                        == "SELECT CONVERT(`file` USING utf8) FROM s51218__wdfist_p.ignore_files GROUP BY file HAVING count(*)>="@
                        + seq!['3'],
                    _ => false,
                }
            },
        },
{
    reveal_strlit("Can't load ignore list from ");
    reveal_strlit(
        "http://www.wikidata.org/w/index.php?title=User:Magnus_Manske/FIST_icons&action=raw",
    );
    reveal_strlit(" : ");
    reveal_strlit(
        "Can't load ignore list from http://www.wikidata.org/w/index.php?title=User:Magnus_Manske/FIST_icons&action=raw : ",
    );
    if let PageReply::Failed(e) = reply {
        assert("Can't load ignore list from "@
            + "http://www.wikidata.org/w/index.php?title=User:Magnus_Manske/FIST_icons&action=raw"@
            + " : "@
            =~= "Can't load ignore list from http://www.wikidata.org/w/index.php?title=User:Magnus_Manske/FIST_icons&action=raw : "@);
    }
    queries_ask_for_their_keys(Seq::empty(), Seq::empty());
    if let Step::Ask(Request::ToolDatabase { sql }) = out {
        assert(sql@
            =~= "SELECT CONVERT(`file` USING utf8) FROM s51218__wdfist_p.ignore_files GROUP BY file HAVING count(*)>="@
            + seq!['3']);
    }
}

/// What is said when the tool database gives no rows, asked from a place in the
/// program.
pub open spec fn tool_message(error: ToolError, place: Seq<char>) -> Seq<char> {
    match error {
        ToolError::BadMutex(e) => "Bad mutex: "@ + e@,
        ToolError::NoConnection(e) => e@,
        ToolError::Query(e) => place + ": "@ + e@,
    }
}

/// What becomes of the database of files to ignore: they are ignored, and it is
/// asked which of the items qualify, or the search is over with a message.
pub proof fn the_database_is_taken_in(
    s: FistView,
    reply: Result<Vec<Option<String>>, ToolError>,
    post: FistView,
    out: Step,
)
    requires
        s.phase is IgnoreDatabase,
        run_step(s, Reply::IgnoreDatabase(reply), post, out),
    ensures
        post == (FistView { ignored: post.ignored, phase: post.phase, ..s }),
        match reply {
            Err(e) => post.phase is Idle && post.ignored == s.ignored && says(
                out,
                tool_message(e, "wdfist::seed_ignore_files_from_ignore_database"@),
            ),
            Ok(rows) => {
                &&& post.phase is Items
                &&& post.ignored == seeded_with(s, present(rows@)).ignored
                &&& match out {
                    Step::Ask(
                        Request::Query { wiki, query: Query::Items { without_p18 }, keys },
                    ) => {
                        &&& wiki@ == "wikidatawiki"@
                        &&& hold(keys@, s.items)
                        &&& without_p18 <==> says_something(
                            s.params,
                            "wdf_only_items_without_p18"@,
                        )
                    },
                    _ => false,
                }
            },
        },
{
    set_parameters_say_something(s.params, "wdf_only_items_without_p18"@);
    reveal_strlit("wdfist::seed_ignore_files_from_ignore_database: ");
    reveal_strlit("wdfist::seed_ignore_files_from_ignore_database");
    reveal_strlit(": ");
    assert("wdfist::seed_ignore_files_from_ignore_database: "@
        =~= "wdfist::seed_ignore_files_from_ignore_database"@ + ": "@);
}

/// Whether Wikidata's database is asked a question about all items.
pub open spec fn asks_about(out: Step, question: Query, items: Seq<Seq<char>>) -> bool {
    match out {
        Step::Ask(Request::Query { wiki, query, keys }) => {
            &&& wiki@ == "wikidatawiki"@
            &&& hold(keys@, items)
            &&& match question {
                Query::LanguageLinks => query is LanguageLinks,
                Query::Coordinates => query is Coordinates,
                Query::Labels => query is Labels,
                _ => false,
            }
        },
        _ => false,
    }
}

/// Whether the tool database is asked which files to ignore for the items that
/// have files.
pub open spec fn asks_what_to_ignore(out: Step, items: Set<Seq<char>>) -> bool {
    match out {
        Step::Ask(Request::ToolQuery { query, keys }) => query is IgnoredFiles && hold_each_once(
            keys@,
            items,
        ),
        _ => false,
    }
}

/// Which question comes after the sources before number `source`: the first of
/// those that are left and that a parameter names, or else what to ignore.
pub proof fn the_next_source_is_asked(s: FistView, source: nat, post: FistView, out: Step)
    requires
        proceeds(s, source, post, out),
    ensures
        post == (FistView { phase: post.phase, ..s }),
        source == 0 && says_something(s.params, "wdf_langlinks"@) ==> post.phase is LanguageLinks
            && asks_about(out, Query::LanguageLinks, s.items),
        (source == 1 || source == 0 && !says_something(s.params, "wdf_langlinks"@))
            && says_something(s.params, "wdf_coords"@) ==> post.phase is Coordinates && asks_about(
            out,
            Query::Coordinates,
            s.items,
        ),
        (source == 2 || source == 1 && !says_something(s.params, "wdf_coords"@) || source == 0
            && !says_something(s.params, "wdf_langlinks"@) && !says_something(
            s.params,
            "wdf_coords"@,
        )) && says_something(s.params, "wdf_search_commons"@) ==> post.phase is Labels
            && asks_about(out, Query::Labels, s.items),
        (source > 2 || !says_something(s.params, "wdf_search_commons"@)) && (source > 1
            || !says_something(s.params, "wdf_coords"@)) && (source > 0 || !says_something(
            s.params,
            "wdf_langlinks"@,
        )) ==> post.phase is IgnoredFiles && asks_what_to_ignore(out, s.item2files.dom()),
{
    set_parameters_say_something(s.params, "wdf_langlinks"@);
    set_parameters_say_something(s.params, "wdf_coords"@);
    set_parameters_say_something(s.params, "wdf_search_commons"@);
    if let Step::Ask(Request::ToolQuery { query, keys }) = out {
        lemma_hold_each_once(keys@, s.item2files.dom());
    }
}

/// What becomes of the items: those that qualify are searched for, in the order
/// in which they are told. Without any the search is over; an error is passed
/// on.
pub proof fn the_items_are_taken_in(
    s: FistView,
    reply: Result<Vec<String>, String>,
    post: FistView,
    out: Step,
)
    requires
        s.phase is Items,
        run_step(s, Reply::Rows(reply), post, out),
    ensures
        post == (FistView { items: post.items, phase: post.phase, ..s }),
        match reply {
            Err(e) => post.phase is Idle && post.items == s.items && says(out, e@),
            Ok(rows) => {
                &&& hold(rows@, post.items)
                &&& rows@.len() == 0 ==> post.phase is Idle && match out {
                    Step::Done(Ok(result)) => result.status@ == "No items qualify"@
                        && result.data@.len() == 0,
                    _ => false,
                }
                &&& rows@.len() > 0 ==> out is Ask
            },
        },
{
    if let Ok(rows) = reply {
        lemma_hold(rows@);
        if rows@.len() == 0 {
            if let Step::Done(Ok(result)) = out {
                lemma_lists_nothing(result.data@);
            }
        }
    }
}

/// A source of files is asked only if a parameter names it.
pub proof fn only_named_sources_are_asked(s: FistView, reply: Reply, post: FistView, out: Step)
    requires
        run_step(s, reply, post, out),
    ensures
        post.phase is LanguageLinks ==> says_something(s.params, "wdf_langlinks"@),
        post.phase is Coordinates ==> says_something(s.params, "wdf_coords"@),
        post.phase is Labels ==> says_something(s.params, "wdf_search_commons"@),
        out matches Step::Ask(Request::Query { query, .. }) ==> {
            &&& query is LanguageLinks ==> post.phase is LanguageLinks
            &&& query is Coordinates ==> post.phase is Coordinates
            &&& query is Labels ==> post.phase is Labels
            &&& query is PageImages ==> says_something(s.params, "wdf_only_page_images"@)
            &&& query is UsedFiles ==> says_something(s.params, "wdf_only_files_not_on_wd"@)
        },
{
    set_parameters_say_something(s.params, "wdf_langlinks"@);
    set_parameters_say_something(s.params, "wdf_coords"@);
    set_parameters_say_something(s.params, "wdf_search_commons"@);
    set_parameters_say_something(s.params, "wdf_only_page_images"@);
    set_parameters_say_something(s.params, "wdf_only_files_not_on_wd"@);
}

/// The sources of files: what is asked first, and the parameter that names it.
pub open spec fn is_source(question: Query, name: Seq<char>) -> bool {
    match question {
        Query::LanguageLinks => name == "wdf_langlinks"@,
        Query::Coordinates => name == "wdf_coords"@,
        Query::Labels => name == "wdf_search_commons"@,
        _ => false,
    }
}

/// How far a search is from its end when it asks for a source.
spec fn place_of(question: Query) -> nat {
    match question {
        Query::LanguageLinks => 8,
        Query::Coordinates => 6,
        _ => 4,
    }
}

#[verifier::rlimit(50)]
proof fn lemma_source_is_not_passed(
    s: FistView,
    reply: Reply,
    post: FistView,
    out: Step,
    question: Query,
    name: Seq<char>,
)
    requires
        run_step(s, reply, post, out),
        is_source(question, name),
        says_something(s.params, name),
        distance(s.phase).0 > place_of(question),
        s.phase is Items || distance(s.phase).0 < 9,
        !(out is Done),
    ensures
        distance(post.phase).0 > place_of(question) || asks_about(out, question, post.items),
{
    set_parameters_say_something(s.params, name);
    if let (PhaseView::LanguageLinks, Reply::Links(Ok(rows))) = (s.phase, reply) {
        let over = FistView { phase: PhaseView::Idle, ..s };
        let jobs = choose|jobs: Seq<(Seq<char>, Seq<(Seq<char>, Seq<char>)>)>|
            lists_groups(jobs, grouped(link_texts(rows@)))
                && #[trigger] next_wiki(over, jobs, Seq::empty(), None, post, out);
        assert(next_wiki(over, jobs, Seq::empty(), None, post, out));
    }
}

#[verifier::rlimit(50)]
proof fn lemma_source_is_asked(
    states: Seq<FistView>,
    replies: Seq<Reply>,
    steps: Seq<Step>,
    question: Query,
    name: Seq<char>,
    n: int,
)
    requires
        course(states, replies, steps),
        states[0].phase is Items,
        is_source(question, name),
        says_something(states[0].params, name),
        forall|k: int| 0 <= k < replies.len() - 1 ==> !((#[trigger] steps[k]) is Done),
        0 < n < replies.len(),
    ensures
        states[n].phase !is Idle,
        states[n].params == states[0].params,
        states[n].items == states[1].items,
        distance(states[n].phase).0 < 9,
        distance(states[n].phase).0 > place_of(question) || exists|k: int|
            0 <= k < n && asks_about(#[trigger] steps[k], question, states[1].items),
    decreases n,
{
    let i = n - 1;
    let reply = replies[i];
    assert(run_step(states[i], reply, states[n], steps[i]));
    assert(!(steps[i] is Done));
    search_keeps_its_rules(states[i], reply, states[n], steps[i]);
    if i > 0 {
        lemma_source_is_asked(states, replies, steps, question, name, i);
    }
    search_comes_to_an_end(states[i], reply, states[n], steps[i]);
    if i == 0 || distance(states[i].phase).0 > place_of(question) {
        lemma_source_is_not_passed(states[i], reply, states[n], steps[i], question, name);
        if distance(states[n].phase).0 <= place_of(question) {
            assert(asks_about(steps[i], question, states[1].items));
        }
    } else {
        let k = choose|k: int|
            0 <= k < i && asks_about(#[trigger] steps[k], question, states[1].items);
        assert(asks_about(steps[k], question, states[1].items));
    }
}

/// Every source of files that the parameters name is turned to, whichever others
/// they name: from the items that qualify to a result, there is a step that asks
/// the source about all of them.
pub proof fn every_named_source_is_asked(
    states: Seq<FistView>,
    replies: Seq<Reply>,
    steps: Seq<Step>,
    rows: Vec<String>,
    question: Query,
    name: Seq<char>,
)
    requires
        course(states, replies, steps),
        replies.len() > 0,
        states[0].phase is Items,
        replies[0] == Reply::Rows(Ok(rows)),
        rows@.len() > 0,
        forall|k: int| 0 <= k < replies.len() - 1 ==> !((#[trigger] steps[k]) is Done),
        steps.last() matches Step::Done(Ok(_)),
        is_source(question, name),
        says_something(states[0].params, name),
    ensures
        exists|k: int|
            0 <= k < replies.len() && asks_about(#[trigger] steps[k], question, texts(rows@)),
{
    let n = replies.len() - 1;
    let reply = replies[0];
    assert(run_step(states[0], reply, states[1], steps[0]));
    the_items_are_taken_in(states[0], Ok(rows), states[1], steps[0]);
    assert(n > 0);
    lemma_source_is_asked(states, replies, steps, question, name, n);
    let last = replies[n];
    assert(run_step(states[n], last, states[n + 1], steps[n]));
    assert(distance(states[n].phase).0 <= 2);
    let k = choose|k: int|
        0 <= k < n && asks_about(#[trigger] steps[k], question, states[1].items);
    assert(asks_about(steps[k], question, texts(rows@)));
}

/// How a search ends: with status OK, and all files that it knows but the
/// unwanted ones, with their counts; items without files are not listed.
pub open spec fn ends_with_the_wanted(
    m: Map<Seq<char>, Map<Seq<char>, usize>>,
    params: Map<Seq<char>, Seq<char>>,
    used: Seq<Seq<char>>,
    post: FistView,
    out: Step,
    item: Seq<char>,
    file: Seq<char>,
) -> bool {
    &&& post.phase is Idle
    &&& match out {
        Step::Done(Ok(result)) => result.status@ == "OK"@ && lists_files(
            result.data@,
            post.item2files,
        ),
        _ => false,
    }
    &&& knows(post.item2files, item, file) <==> knows(m, item, file) && !is_unwanted(
        m,
        params,
        used,
        file,
    )
    &&& knows(post.item2files, item, file) ==> post.item2files[item][file] == m[item][file]
    &&& post.item2files.contains_key(item) <==> exists|f: Seq<char>| #[trigger]
        knows(post.item2files, item, f)
}

proof fn lemma_ends_with_the_wanted(
    s: FistView,
    used: Seq<Seq<char>>,
    post: FistView,
    out: Step,
    item: Seq<char>,
    file: Seq<char>,
)
    requires
        s.item2files.dom().finite(),
        completes(s, used, post, out),
    ensures
        ends_with_the_wanted(s.item2files, s.params, used, post, out, item, file),
        post == (FistView { item2files: post.item2files, phase: post.phase, ..s }),
{
    let m = s.item2files;
    let filtered = five_or_used(m, s.params, used);
    wanted_files_stay(m, s.params, used, item, file);
    only_items_without_files_go(filtered, item);
    if knows(filtered, item, file) {
        assert(exists|f: Seq<char>| #[trigger] knows(filtered, item, f));
    }
    assert forall|f: Seq<char>| #[trigger] knows(post.item2files, item, f) == knows(
        filtered,
        item,
        f,
    ) by {
        if knows(filtered, item, f) {
            assert(post.item2files.contains_key(item));
        }
    }
    if post.item2files.contains_key(item) {
        let f = choose|f: Seq<char>| #[trigger] knows(filtered, item, f);
        assert(knows(post.item2files, item, f));
    }
}

/// What becomes of the files that items use: an error is passed on, and else the
/// search ends with the wanted files.
pub proof fn used_files_are_taken_in(
    s: FistView,
    reply: Result<Vec<String>, String>,
    post: FistView,
    out: Step,
    item: Seq<char>,
    file: Seq<char>,
)
    requires
        s.item2files.dom().finite(),
        s.phase is UsedFiles,
        run_step(s, Reply::Rows(reply), post, out),
    ensures
        post == (FistView { item2files: post.item2files, phase: post.phase, ..s }),
        match reply {
            Err(e) => post.phase is Idle && post.item2files == s.item2files && says(out, e@),
            Ok(rows) => ends_with_the_wanted(
                s.item2files,
                s.params,
                texts(rows@),
                post,
                out,
                item,
                file,
            ),
        },
{
    let over = FistView { phase: PhaseView::Idle, ..s };
    if let Ok(rows) = reply {
        lemma_ends_with_the_wanted(over, texts(rows@), post, out, item, file);
    }
}

/// Whether the tool database tells to ignore the file for the item.
pub open spec fn told_to_ignore(
    items: Seq<Seq<char>>,
    batches: Seq<Result<Vec<Option<(String, String)>>, String>>,
    item: Seq<char>,
    file: Seq<char>,
) -> bool {
    items.len() > 0 && exists|name: Seq<char>| #[trigger]
        batches_name(batches, item, name) && normalized(name) == file
}

/// Whether Wikidata's database is asked which files items use, of those that some
/// item has.
pub open spec fn asks_for_used_files(
    out: Step,
    m: Map<Seq<char>, Map<Seq<char>, usize>>,
) -> bool {
    match out {
        Step::Ask(Request::Query { wiki, query, keys }) => {
            &&& wiki@ == "wikidatawiki"@
            &&& query is UsedFiles
            &&& hold_each_once(
                keys@,
                Set::new(|file: Seq<char>| exists|item: Seq<char>| knows(m, item, file)),
            )
        },
        _ => false,
    }
}

/// The files that are left after those to ignore are gone.
pub open spec fn is_left(
    s: FistView,
    batches: Seq<Result<Vec<Option<(String, String)>>, String>>,
    left: Map<Seq<char>, Map<Seq<char>, usize>>,
) -> bool {
    &&& left.dom().finite()
    &&& forall|item: Seq<char>, file: Seq<char>| #[trigger]
        knows(left, item, file) <==> knows(s.item2files, item, file) && !told_to_ignore(
            s.items,
            batches,
            item,
            file,
        )
    &&& forall|item: Seq<char>, file: Seq<char>| #[trigger]
        knows(left, item, file) ==> left[item][file] == s.item2files[item][file]
}

proof fn lemma_is_left(
    s: FistView,
    batches: Seq<Result<Vec<Option<(String, String)>>, String>>,
)
    requires
        s.item2files.dom().finite(),
    ensures
        is_left(s, batches, without_pairs(s.item2files, rows_to_ignore(s.items, batches))),
{
    let rows = rows_to_ignore(s.items, batches);
    let left = without_pairs(s.item2files, rows);
    lemma_finite_without(s.item2files, rows);
    assert forall|item: Seq<char>, file: Seq<char>|
        (#[trigger] knows(left, item, file) <==> knows(s.item2files, item, file)
            && !told_to_ignore(s.items, batches, item, file)) && (knows(left, item, file)
            ==> left[item][file] == s.item2files[item][file]) by {
        only_files_to_ignore_are_gone(s.item2files, rows, item, file);
        if exists|i: int| 0 <= i < rows.len() && row_ignores(#[trigger] rows[i], item, file) {
            let i = choose|i: int|
                0 <= i < rows.len() && row_ignores(#[trigger] rows[i], item, file);
            assert(rows.contains((item, rows[i].1)));
            files_to_ignore_are_those_of_all_batches(s.items, batches, item, rows[i].1);
            assert(batches_name(batches, item, rows[i].1));
        }
        if told_to_ignore(s.items, batches, item, file) {
            let name = choose|name: Seq<char>| #[trigger]
                batches_name(batches, item, name) && normalized(name) == file;
            files_to_ignore_are_those_of_all_batches(s.items, batches, item, name);
            let i = choose|i: int| 0 <= i < rows.len() && rows[i] == (item, name);
            assert(row_ignores(rows[i], item, file));
        }
    }
}

/// What becomes of the files to ignore for the items: exactly they are taken from
/// their items. If a batch was refused, the search is over with the last reason.
/// If it matters which files items use, and there are files, that is asked next;
/// and else the search ends with the wanted files.
#[verifier::rlimit(50)]
pub proof fn files_to_ignore_are_taken_in(
    s: FistView,
    reply: Result<Vec<Result<Vec<Option<(String, String)>>, String>>, ToolError>,
    post: FistView,
    out: Step,
) -> (left: Map<Seq<char>, Map<Seq<char>, usize>>)
    requires
        s.item2files.dom().finite(),
        s.phase is IgnoredFiles,
        run_step(s, Reply::IgnoredFiles(reply), post, out),
    ensures
        post == (FistView { item2files: post.item2files, phase: post.phase, ..s }),
        match reply {
            Err(e) => post.phase is Idle && post.item2files == s.item2files && says(
                out,
                tool_message(e, "wdfist::filter_files_from_ignore_database"@),
            ),
            Ok(batches) => {
                &&& is_left(s, batches@, left)
                &&& match refusal(s.items, batches@) {
                    Some(e) => post.phase is Idle && post.item2files == left && says(
                        out,
                        "wdfist::filter_files_from_ignore_database: "@ + e,
                    ),
                    None => {
                        &&& says_something(s.params, "wdf_only_files_not_on_wd"@) && (exists|
                            item: Seq<char>,
                            file: Seq<char>,
                        | knows(left, item, file)) ==> post.phase is UsedFiles && post.item2files
                            == left && asks_for_used_files(out, left)
                        &&& !(says_something(s.params, "wdf_only_files_not_on_wd"@) && (exists|
                            item: Seq<char>,
                            file: Seq<char>,
                        | knows(left, item, file))) ==> forall|item: Seq<char>, file: Seq<char>|
                            #![trigger knows(post.item2files, item, file)]
                            ends_with_the_wanted(
                                left,
                                s.params,
                                Seq::empty(),
                                post,
                                out,
                                item,
                                file,
                            )
                    },
                }
            },
        },
{
    reveal_strlit("wdfist::filter_files_from_ignore_database: ");
    reveal_strlit("wdfist::filter_files_from_ignore_database");
    reveal_strlit(": ");
    assert("wdfist::filter_files_from_ignore_database: "@
        =~= "wdfist::filter_files_from_ignore_database"@ + ": "@);
    set_parameters_say_something(s.params, "wdf_only_files_not_on_wd"@);
    match reply {
        Err(_) => s.item2files,
        Ok(batches) => {
            let left = without_pairs(s.item2files, rows_to_ignore(s.items, batches@));
            let then = FistView { item2files: left, phase: PhaseView::Idle, ..s };
            lemma_is_left(s, batches@);
            let some = exists|item: Seq<char>, file: Seq<char>| knows(left, item, file);
            assert(some <==> exists|file: Seq<char>| is_listed(left, file)) by {
                if some {
                    let (item, file) = choose|item: Seq<char>, file: Seq<char>|
                        knows(left, item, file);
                    assert(is_listed(left, file));
                }
                if exists|file: Seq<char>| is_listed(left, file) {
                    let file = choose|file: Seq<char>| is_listed(left, file);
                    let item = choose|item: Seq<char>| #[trigger]
                        left.contains_key(item) && left[item].contains_key(file);
                    assert(knows(left, item, file));
                }
            }
            if refusal(s.items, batches@) is None {
                if flag(s.params, "wdf_only_files_not_on_wd"@) && some {
                    let listed = Set::new(
                        |file: Seq<char>| exists|item: Seq<char>| knows(left, item, file),
                    );
                    assert forall|file: Seq<char>| listed.contains(file) <==> listed_files(
                        left,
                    ).contains(file) by {
                        if exists|item: Seq<char>| knows(left, item, file) {
                            let item = choose|item: Seq<char>| knows(left, item, file);
                            assert(left.contains_key(item));
                        }
                        if is_listed(left, file) {
                            let item = choose|item: Seq<char>| #[trigger]
                                left.contains_key(item) && left[item].contains_key(file);
                            assert(knows(left, item, file));
                        }
                    }
                    assert(listed =~= listed_files(left));
                    if let Step::Ask(Request::Query { wiki, query, keys }) = out {
                        lemma_hold_each_once(keys@, listed);
                    }
                } else {
                    assert forall|item: Seq<char>, file: Seq<char>|
                        #![trigger knows(post.item2files, item, file)]
                        ends_with_the_wanted(
                            left,
                            s.params,
                            Seq::empty(),
                            post,
                            out,
                            item,
                            file,
                        ) by {
                        lemma_ends_with_the_wanted(then, Seq::empty(), post, out, item, file);
                    }
                }
            }
            left
        },
    }
}

} // verus!

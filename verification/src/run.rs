//! The course of a search: what it asks for, and what it makes of the replies.
use crate::answer::{
    ask_nearby, ask_search, can_read, files_for, found_files, geosearch_params, pair_texts,
    search_params, search_titles, titles_cuttable,
};
use crate::files::{is_listed, lists_files, room_for, without_empty};
use crate::links::{
    as_map, get_language_links, group_texts, grouped, keep_those_in, link_files, link_texts,
    linked, map_of, text_map, those_in,
};
use crate::pagelist::{optional_text, WIKIDATA_WIKI};
use crate::phase::{
    job_texts, LinkView, LinkWork, PageReply, Phase, PhaseView, Reply, Request, RunResult,
    SearchReply, SearchView, SearchWork, Step, ToolError,
};
use crate::query::{ignore_query, ignore_query_text, Query, QueryView};
use crate::sort::{sort_dedup, sorted};
use crate::text::texts;
use crate::wdfist::{
    five_or_used, flag, listed_names, present, refusal, rows_to_ignore, seeded, without_pairs,
    FistView, WDfist,
};
use vstd::prelude::*;
use vstd::string::*;

verus! {

broadcast use {
    vstd::seq_lib::group_seq_properties,
    crate::text::lemma_texts_push,
    crate::answer::lemma_pair_texts_push,
    crate::phase::lemma_job_texts_push,
};

/// The wiki that holds the files.
pub const COMMONS_WIKI: &'static str = "commonswiki";

/// The API of the wiki that holds the files.
pub const COMMONS_API: &'static str = "https://commons.wikimedia.org/w/api.php";

/// The API of Wikidata.
pub const WIKIDATA_API: &'static str = "https://www.wikidata.org/w/api.php";

/// The page that lists files to ignore.
pub const IGNORE_LIST_URL: &'static str =
    "http://www.wikidata.org/w/index.php?title=User:Magnus_Manske/FIST_icons&action=raw";

/// Whether the keys are those of the set, each once.
pub open spec fn lists(keys: Seq<Seq<char>>, set: Set<Seq<char>>) -> bool {
    keys.no_duplicates() && keys.to_set() == set
}

/// Whether the search is over, with a message.
pub open spec fn fails(out: Step, message: Seq<char>) -> bool {
    out matches Step::Done(Err(e)) && e@ == message
}

/// Whether the search is over, with a status and files.
pub open spec fn ends(
    out: Step,
    status: Seq<char>,
    data: Map<Seq<char>, Map<Seq<char>, usize>>,
) -> bool {
    out matches Step::Done(Ok(result)) && result.status@ == status && lists_files(
        result.data@,
        data,
    )
}

/// Whether rows of a wiki's database are asked for.
pub open spec fn queries(
    out: Step,
    wiki: Seq<char>,
    query: QueryView,
    keys: Seq<Seq<char>>,
) -> bool {
    out matches Step::Ask(Request::Query { wiki: w, query: q, keys: k }) && w@ == wiki && q@
        == query && texts(k@) == keys
}

/// Whether rows of a wiki's database are asked for, for the keys in any order.
pub open spec fn queries_any(
    out: Step,
    wiki: Seq<char>,
    query: QueryView,
    keys: Set<Seq<char>>,
) -> bool {
    out matches Step::Ask(Request::Query { wiki: w, query: q, keys: k }) && w@ == wiki && q@
        == query && lists(texts(k@), keys)
}

/// The message about the tool database; `place` is where a query was refused.
pub open spec fn tool_error_text(error: ToolError, place: Seq<char>) -> Seq<char> {
    match error {
        ToolError::BadMutex(e) => "Bad mutex: "@ + e@,
        ToolError::NoConnection(e) => e@,
        ToolError::Query(e) => place + e@,
    }
}

/// How a search goes on after the sources of files before number `source`: it
/// turns to the next source that the parameters name, or, after the last, to
/// the files that are to be ignored.
pub open spec fn proceeds(s: FistView, source: nat, post: FistView, out: Step) -> bool {
    if source == 0 && flag(s.params, "wdf_langlinks"@) {
        &&& post == FistView { phase: PhaseView::LanguageLinks, ..s }
        &&& queries(out, WIKIDATA_WIKI@, QueryView::LanguageLinks, s.items)
    } else if source <= 1 && flag(s.params, "wdf_coords"@) {
        &&& post == FistView { phase: PhaseView::Coordinates, ..s }
        &&& queries(out, WIKIDATA_WIKI@, QueryView::Coordinates, s.items)
    } else if source <= 2 && flag(s.params, "wdf_search_commons"@) {
        &&& post == FistView { phase: PhaseView::Labels, ..s }
        &&& queries(out, WIKIDATA_WIKI@, QueryView::Labels, s.items)
    } else {
        &&& post == FistView { phase: PhaseView::IgnoredFiles, ..s }
        &&& out matches Step::Ask(Request::ToolQuery { query, keys }) && query@
            == QueryView::IgnoredFiles && lists(texts(keys@), s.item2files.dom())
    }
}

/// How a source of files ends: with an error, if there was one, and else with
/// the files counted, whereupon the search proceeds.
pub open spec fn finishes(
    s: FistView,
    found: Seq<(Seq<char>, Seq<char>)>,
    error: Option<Seq<char>>,
    source: nat,
    post: FistView,
    out: Step,
) -> bool {
    match error {
        Some(e) => post == (FistView { phase: PhaseView::Idle, ..s }) && fails(out, e),
        None => proceeds(s.with_found(found), source, post, out),
    }
}

/// How the search for files on pages goes on: with the last of the wikis that
/// are pending.
pub open spec fn next_wiki(
    s: FistView,
    pending: Seq<(Seq<char>, Seq<(Seq<char>, Seq<char>)>)>,
    found: Seq<(Seq<char>, Seq<char>)>,
    error: Option<Seq<char>>,
    post: FistView,
    out: Step,
) -> bool {
    if pending.len() == 0 {
        finishes(s, found, error, 1, post, out)
    } else {
        let (wiki, title_q) = pending.last();
        let page2q = as_map(title_q);
        &&& post == FistView {
            phase: PhaseView::ImageLinks(
                LinkView { wiki, page2q, pending: pending.drop_last(), found, error },
            ),
            ..s
        }
        &&& queries_any(out, COMMONS_WIKI@, QueryView::ImageLinks { wiki }, page2q.dom())
    }
}

/// How the search through an API goes on: with the last of the items that are
/// pending.
pub open spec fn next_search(
    s: FistView,
    nearby: bool,
    pending: Seq<(Seq<char>, Seq<(Seq<char>, Seq<char>)>)>,
    found: Seq<(Seq<char>, Seq<char>)>,
    no_api: bool,
    post: FistView,
    out: Step,
) -> bool {
    if pending.len() == 0 {
        finishes(
            s,
            found,
            if no_api {
                Some("Can't get Commons API"@)
            } else {
                None
            },
            if nearby {
                2
            } else {
                3
            },
            post,
            out,
        )
    } else {
        let (item, params) = pending.last();
        &&& post == FistView {
            phase: PhaseView::Search(
                SearchView { nearby, item, pending: pending.drop_last(), found, no_api },
            ),
            ..s
        }
        &&& out matches Step::Ask(Request::Search { api, params: p }) && api@ == COMMONS_API@
            && pair_texts(p@) == params
    }
}

/// Whether the jobs are the wikis with their pages and items, each once.
pub open spec fn lists_groups(
    jobs: Seq<(Seq<char>, Seq<(Seq<char>, Seq<char>)>)>,
    groups: Map<Seq<char>, Seq<(Seq<char>, Seq<char>)>>,
) -> bool {
    &&& forall|i: int|
        0 <= i < jobs.len() ==> groups.contains_key((#[trigger] jobs[i]).0) && groups[jobs[i].0]
            == jobs[i].1
    &&& forall|i: int, j: int|
        0 <= i < j < jobs.len() ==> (#[trigger] jobs[i]).0 != (#[trigger] jobs[j]).0
    &&& forall|wiki: Seq<char>| #[trigger]
        groups.contains_key(wiki) ==> exists|i: int|
            0 <= i < jobs.len() && (#[trigger] jobs[i]).0 == wiki
}

/// What is asked about items with places.
pub open spec fn place_jobs(rows: Seq<(String, String, String)>) -> Seq<
    (Seq<char>, Seq<(Seq<char>, Seq<char>)>),
> {
    rows.map_values(|r: (String, String, String)| (r.0@, geosearch_params(r.1@, r.2@)))
}

/// What is asked about items with labels.
pub open spec fn label_jobs(rows: Seq<(String, String)>) -> Seq<
    (Seq<char>, Seq<(Seq<char>, Seq<char>)>),
> {
    rows.map_values(|r: (String, String)| (r.0@, search_params(r.1@)))
}

/// The name of the list in an answer.
pub open spec fn list_name(nearby: bool) -> Seq<char> {
    if nearby {
        "geosearch"@
    } else {
        "search"@
    }
}

/// The files found after an API has been asked.
pub open spec fn found_after(work: SearchView, reply: SearchReply) -> Seq<(Seq<char>, Seq<char>)> {
    match reply {
        SearchReply::Answer(answer) => work.found + files_for(
            work.item,
            search_titles(answer, list_name(work.nearby)),
        ),
        _ => work.found,
    }
}

/// The titles of the pages on which files have been found.
pub open spec fn first_texts(pairs: Seq<(Seq<char>, Seq<char>)>) -> Seq<Seq<char>> {
    pairs.map_values(|p: (Seq<char>, Seq<char>)| p.0)
}

/// How a search ends, with the files that remain.
pub open spec fn completes(s: FistView, used: Seq<Seq<char>>, post: FistView, out: Step) -> bool {
    let remaining = without_empty(five_or_used(s.item2files, s.params, used));
    &&& post == FistView { item2files: remaining, phase: PhaseView::Idle, ..s }
    &&& ends(out, "OK"@, remaining)
}

/// The files that some item has.
pub open spec fn listed_files(m: Map<Seq<char>, Map<Seq<char>, usize>>) -> Set<Seq<char>> {
    Set::new(|file: Seq<char>| is_listed(m, file))
}

/// Whether the files found can be counted, if it is time to: nothing is
/// pending, and nothing went wrong.
pub open spec fn countable(
    s: FistView,
    pending: nat,
    found: Seq<(Seq<char>, Seq<char>)>,
    failed: bool,
) -> bool {
    pending == 0 && !failed ==> room_for(s.item2files, found)
}

/// Whether the reply is to what was asked for, and can be taken in: a leading
/// `File:` can be cut from the titles that it names, and the counts of files
/// can grow.
pub open spec fn awaits(s: FistView, reply: Reply) -> bool {
    match (s.phase, reply) {
        (PhaseView::Idle, Reply::Begin) => true,
        (PhaseView::IgnorePage, Reply::IgnorePage(_)) => true,
        (PhaseView::IgnoreDatabase, Reply::IgnoreDatabase(_)) => true,
        (PhaseView::Items, Reply::Rows(_)) => true,
        (PhaseView::LanguageLinks, Reply::Links(_)) => true,
        (PhaseView::ImageLinks(work), Reply::Pairs(reply)) => {
            reply matches Ok(rows) ==> flag(s.params, "wdf_only_page_images"@) || countable(
                s,
                work.pending.len(),
                work.found + linked(pair_texts(rows@), work.page2q),
                work.error is Some,
            )
        },
        (PhaseView::PageImages(work, page_file), Reply::Pairs(reply)) => {
            reply matches Ok(rows) ==> countable(
                s,
                work.pending.len(),
                work.found + linked(those_in(pair_texts(rows@), page_file), work.page2q),
                work.error is Some,
            )
        },
        (PhaseView::Coordinates, Reply::Coordinates(_)) => true,
        (PhaseView::Labels, Reply::Pairs(_)) => true,
        (PhaseView::Search(work), Reply::Search(reply)) => {
            &&& reply matches SearchReply::Answer(answer) ==> titles_cuttable(
                search_titles(answer, list_name(work.nearby)),
            )
            &&& countable(
                s,
                work.pending.len(),
                found_after(work, reply),
                work.no_api || reply is NoApi,
            )
        },
        (PhaseView::IgnoredFiles, Reply::IgnoredFiles(_)) => true,
        (PhaseView::UsedFiles, Reply::Rows(_)) => true,
        _ => false,
    }
}

/// What a search makes of a reply.
pub open spec fn run_step(s: FistView, reply: Reply, post: FistView, out: Step) -> bool {
    let over = FistView { phase: PhaseView::Idle, ..s };
    match (s.phase, reply) {
        (PhaseView::Idle, Reply::Begin) => {
            let begun = FistView {
                allow_svg: flag(s.params, "wdf_allow_svg"@),
                only_jpeg: flag(s.params, "wdf_only_jpeg"@),
                ..s
            };
            if s.items.len() == 0 {
                post == begun && ends(out, "No items from original query"@, Map::empty())
            } else {
                &&& post == FistView { phase: PhaseView::IgnorePage, ..begun }
                &&& out matches Step::Ask(Request::Page { api, url }) && api@ == WIKIDATA_API@
                    && url@ == IGNORE_LIST_URL@
            }
        },
        (PhaseView::IgnorePage, Reply::IgnorePage(reply)) => match reply {
            PageReply::NoApi => post == over && fails(out, "Can't open Wikidata API"@),
            PageReply::Failed(e) => post == over && fails(
                out,
                "Can't load ignore list from "@ + IGNORE_LIST_URL@ + " : "@ + e@,
            ),
            PageReply::Text(wikitext) => {
                &&& post == FistView {
                    ignored: seeded(
                        s.ignored,
                        s.allow_svg,
                        s.only_jpeg,
                        listed_names(wikitext@),
                    ),
                    phase: PhaseView::IgnoreDatabase,
                    ..s
                }
                &&& out matches Step::Ask(Request::ToolDatabase { sql }) && sql@
                    == ignore_query_text()
            },
        },
        (PhaseView::IgnoreDatabase, Reply::IgnoreDatabase(reply)) => match reply {
            Err(e) => post == over && fails(
                out,
                tool_error_text(e, "wdfist::seed_ignore_files_from_ignore_database: "@),
            ),
            Ok(rows) => {
                &&& post == FistView {
                    ignored: seeded(s.ignored, s.allow_svg, s.only_jpeg, present(rows@)),
                    phase: PhaseView::Items,
                    ..s
                }
                &&& queries(
                    out,
                    WIKIDATA_WIKI@,
                    QueryView::Items {
                        without_p18: flag(s.params, "wdf_only_items_without_p18"@),
                    },
                    s.items,
                )
            },
        },
        (PhaseView::Items, Reply::Rows(reply)) => match reply {
            Err(e) => post == over && fails(out, e@),
            Ok(rows) => {
                let filtered = FistView { items: texts(rows@), ..over };
                if rows@.len() == 0 {
                    post == filtered && ends(out, "No items qualify"@, Map::empty())
                } else {
                    proceeds(filtered, 0, post, out)
                }
            },
        },
        (PhaseView::LanguageLinks, Reply::Links(reply)) => match reply {
            Err(e) => post == over && fails(out, e@),
            Ok(rows) => exists|jobs: Seq<(Seq<char>, Seq<(Seq<char>, Seq<char>)>)>|
                lists_groups(jobs, grouped(link_texts(rows@))) && #[trigger] next_wiki(
                    over,
                    jobs,
                    Seq::empty(),
                    None,
                    post,
                    out,
                ),
        },
        (PhaseView::ImageLinks(work), Reply::Pairs(reply)) => match reply {
            Err(e) => next_wiki(over, work.pending, work.found, Some(e@), post, out),
            Ok(rows) => {
                let page_file = pair_texts(rows@);
                if flag(s.params, "wdf_only_page_images"@) {
                    &&& post == FistView { phase: PhaseView::PageImages(work, page_file), ..s }
                    &&& queries_any(
                        out,
                        work.wiki,
                        QueryView::PageImages,
                        first_texts(page_file).to_set(),
                    )
                    &&& out matches Step::Ask(Request::Query { keys, .. }) && sorted(texts(keys@))
                } else {
                    next_wiki(
                        over,
                        work.pending,
                        work.found + linked(page_file, work.page2q),
                        work.error,
                        post,
                        out,
                    )
                }
            },
        },
        (PhaseView::PageImages(work, page_file), Reply::Pairs(reply)) => match reply {
            Err(e) => next_wiki(over, work.pending, work.found, Some(e@), post, out),
            Ok(rows) => next_wiki(
                over,
                work.pending,
                work.found + linked(those_in(pair_texts(rows@), page_file), work.page2q),
                work.error,
                post,
                out,
            ),
        },
        (PhaseView::Coordinates, Reply::Coordinates(reply)) => match reply {
            Err(e) => post == over && fails(out, e@),
            Ok(rows) => next_search(
                over,
                true,
                place_jobs(rows@),
                Seq::empty(),
                false,
                post,
                out,
            ),
        },
        (PhaseView::Labels, Reply::Pairs(reply)) => match reply {
            Err(e) => post == over && fails(out, e@),
            Ok(rows) => next_search(
                over,
                false,
                label_jobs(rows@),
                Seq::empty(),
                false,
                post,
                out,
            ),
        },
        (PhaseView::Search(work), Reply::Search(reply)) => next_search(
            over,
            work.nearby,
            work.pending,
            found_after(work, reply),
            work.no_api || reply is NoApi,
            post,
            out,
        ),
        (PhaseView::IgnoredFiles, Reply::IgnoredFiles(reply)) => match reply {
            Err(e) => post == over && fails(
                out,
                tool_error_text(e, "wdfist::filter_files_from_ignore_database: "@),
            ),
            Ok(batches) => {
                let then = FistView {
                    item2files: without_pairs(s.item2files, rows_to_ignore(s.items, batches@)),
                    ..over
                };
                match refusal(s.items, batches@) {
                    Some(e) => post == then && fails(
                        out,
                        "wdfist::filter_files_from_ignore_database: "@ + e,
                    ),
                    None => if flag(s.params, "wdf_only_files_not_on_wd"@) && exists|
                        file: Seq<char>,
                    | is_listed(then.item2files, file) {
                        &&& post == FistView { phase: PhaseView::UsedFiles, ..then }
                        &&& queries_any(
                            out,
                            WIKIDATA_WIKI@,
                            QueryView::UsedFiles,
                            listed_files(then.item2files),
                        )
                    } else {
                        completes(then, Seq::empty(), post, out)
                    },
                }
            },
        },
        (PhaseView::UsedFiles, Reply::Rows(reply)) => match reply {
            Err(e) => post == over && fails(out, e@),
            Ok(rows) => completes(over, texts(rows@), post, out),
        },
        _ => false,
    }
}

/// The first texts of pairs.
fn firsts(pairs: &Vec<(String, String)>) -> (res: Vec<String>)
    ensures
        texts(res@) == first_texts(pair_texts(pairs@)),
{
    let ghost all = first_texts(pair_texts(pairs@));
    let mut res: Vec<String> = Vec::new();
    let mut i: usize = 0;
    while i < pairs.len()
        invariant
            i <= pairs@.len(),
            all == first_texts(pair_texts(pairs@)),
            texts(res@) == all.take(i as int),
        decreases pairs@.len() - i,
    {
        res.push(pairs[i].0.clone());
        proof {
            assert(all[i as int] == pairs@[i as int].0@);
            assert(all.take(i + 1) =~= all.take(i as int).push(all[i as int]));
        }
        i += 1;
    }
    proof {
        assert(all.take(i as int) =~= all);
    }
    res
}

/// Copies of strings.
fn copies(strings: &Vec<String>) -> (res: Vec<String>)
    ensures
        texts(res@) == texts(strings@),
{
    let ghost all = texts(strings@);
    let mut res: Vec<String> = Vec::new();
    let mut i: usize = 0;
    while i < strings.len()
        invariant
            i <= strings@.len(),
            all == texts(strings@),
            texts(res@) == all.take(i as int),
        decreases strings@.len() - i,
    {
        res.push(strings[i].clone());
        proof {
            assert(all[i as int] == strings@[i as int]@);
            assert(all.take(i + 1) =~= all.take(i as int).push(all[i as int]));
        }
        i += 1;
    }
    proof {
        assert(all.take(i as int) =~= all);
    }
    res
}

impl WDfist {
    /// Asks Wikidata's database about the items.
    fn query_items(&self, query: Query) -> (out: Step)
        ensures
            queries(out, WIKIDATA_WIKI@, query@, self@.items),
    {
        Step::Ask(
            Request::Query { wiki: WIKIDATA_WIKI.to_string(), query, keys: copies(&self.items) },
        )
    }

    /// Turns to the next source of files, or, after the last, to the files to
    /// ignore.
    fn proceed(&mut self, source: u8) -> (out: Step)
        ensures
            proceeds(old(self)@, source as nat, final(self)@, out),
    {
        if source == 0 && self.bool_param("wdf_langlinks") {
            self.phase = Phase::LanguageLinks;
            return self.query_items(Query::LanguageLinks);
        }
        if source <= 1 && self.bool_param("wdf_coords") {
            self.phase = Phase::Coordinates;
            return self.query_items(Query::Coordinates);
        }
        if source <= 2 && self.bool_param("wdf_search_commons") {
            self.phase = Phase::Labels;
            return self.query_items(Query::Labels);
        }
        self.phase = Phase::IgnoredFiles;
        Step::Ask(Request::ToolQuery { query: Query::IgnoredFiles, keys: self.item2files.items() })
    }

    /// Ends a source of files.
    fn finish(&mut self, found: &Vec<(String, String)>, error: Option<String>, source: u8) -> (out:
        Step)
        requires
            error is None ==> room_for(old(self)@.item2files, pair_texts(found@)),
        ensures
            finishes(
                old(self)@,
                pair_texts(found@),
                optional_text(error),
                source as nat,
                final(self)@,
                out,
            ),
    {
        match error {
            Some(e) => {
                self.phase = Phase::Idle;
                Step::Done(Err(e))
            },
            None => {
                self.add_files(found);
                self.proceed(source)
            },
        }
    }

    /// Turns to the next wiki.
    fn turn_to_wiki(
        &mut self,
        pending: Vec<(String, Vec<(String, String)>)>,
        found: Vec<(String, String)>,
        error: Option<String>,
    ) -> (out: Step)
        requires
            countable(old(self)@, pending@.len(), pair_texts(found@), error is Some),
        ensures
            next_wiki(
                old(self)@,
                job_texts(pending@),
                pair_texts(found@),
                optional_text(error),
                final(self)@,
                out,
            ),
    {
        let mut pending = pending;
        let ghost jobs = job_texts(pending@);
        match pending.pop() {
            None => self.finish(&found, error, 1),
            Some((wiki, title_q)) => {
                proof {
                    assert(jobs.last() == (wiki@, pair_texts(title_q@)));
                    assert(jobs.drop_last() =~= job_texts(pending@));
                }
                let page2q = map_of(&title_q);
                let keys = page2q.keys();
                proof {
                    assert(text_map(page2q@).dom() =~= page2q@.dom());
                }
                let query = Query::ImageLinks { wiki: wiki.clone() };
                self.phase = Phase::ImageLinks(LinkWork { wiki, page2q, pending, found, error });
                Step::Ask(Request::Query { wiki: COMMONS_WIKI.to_string(), query, keys })
            },
        }
    }

    /// Turns to the next item to search files for.
    fn turn_to_item(
        &mut self,
        nearby: bool,
        pending: Vec<(String, Vec<(String, String)>)>,
        found: Vec<(String, String)>,
        no_api: bool,
    ) -> (out: Step)
        requires
            countable(old(self)@, pending@.len(), pair_texts(found@), no_api),
        ensures
            next_search(
                old(self)@,
                nearby,
                job_texts(pending@),
                pair_texts(found@),
                no_api,
                final(self)@,
                out,
            ),
    {
        let mut pending = pending;
        let ghost jobs = job_texts(pending@);
        match pending.pop() {
            None => {
                let error: Option<String> = if no_api {
                    Some("Can't get Commons API".to_string())
                } else {
                    None
                };
                self.finish(
                    &found,
                    error,
                    if nearby {
                        2
                    } else {
                        3
                    },
                )
            },
            Some((item, params)) => {
                proof {
                    assert(jobs.last() == (item@, pair_texts(params@)));
                    assert(jobs.drop_last() =~= job_texts(pending@));
                }
                self.phase = Phase::Search(SearchWork { nearby, item, pending, found, no_api });
                Step::Ask(Request::Search { api: COMMONS_API.to_string(), params })
            },
        }
    }
}

/// A result with a status and no files.
fn no_files(status: &str) -> (out: Step)
    ensures
        ends(out, status@, Map::empty()),
{
    Step::Done(Ok(RunResult { status: status.to_string(), data: Vec::new() }))
}

/// The message about the tool database.
fn tool_error(error: ToolError, place: &str) -> (e: String)
    ensures
        e@ == tool_error_text(error, place@),
{
    match error {
        ToolError::BadMutex(e) => {
            let mut message = "Bad mutex: ".to_string();
            message.append(e.as_str());
            message
        },
        ToolError::NoConnection(e) => e,
        ToolError::Query(e) => {
            let mut message = place.to_string();
            message.append(e.as_str());
            message
        },
    }
}

impl WDfist {
    /// Sets the rules for files, and asks for the page with files to ignore,
    /// if there are items.
    fn begin(&mut self) -> (out: Step)
        requires
            old(self).phase is Idle,
        ensures
            run_step(old(self)@, Reply::Begin, final(self)@, out),
    {
        self.wdf_allow_svg = self.bool_param("wdf_allow_svg");
        self.wdf_only_jpeg = self.bool_param("wdf_only_jpeg");
        if self.items.is_empty() {
            return no_files("No items from original query");
        }
        self.phase = Phase::IgnorePage;
        Step::Ask(
            Request::Page { api: WIKIDATA_API.to_string(), url: IGNORE_LIST_URL.to_string() },
        )
    }

    /// Takes in the page with files to ignore.
    fn take_page(&mut self, reply: PageReply) -> (out: Step)
        requires
            old(self).phase is Idle,
        ensures
            run_step(
                FistView { phase: PhaseView::IgnorePage, ..old(self)@ },
                Reply::IgnorePage(reply),
                final(self)@,
                out,
            ),
    {
        match reply {
            PageReply::NoApi => Step::Done(Err("Can't open Wikidata API".to_string())),
            PageReply::Failed(e) => {
                let mut message = "Can't load ignore list from ".to_string();
                message.append(IGNORE_LIST_URL);
                message.append(" : ");
                message.append(e.as_str());
                Step::Done(Err(message))
            },
            PageReply::Text(wikitext) => {
                self.seed_ignore_files_from_wiki_page(wikitext.as_str());
                self.phase = Phase::IgnoreDatabase;
                Step::Ask(Request::ToolDatabase { sql: ignore_query() })
            },
        }
    }

    /// Takes in the files to ignore for all items.
    fn take_ignored(&mut self, reply: Result<Vec<Option<String>>, ToolError>) -> (out: Step)
        requires
            old(self).phase is Idle,
        ensures
            run_step(
                FistView { phase: PhaseView::IgnoreDatabase, ..old(self)@ },
                Reply::IgnoreDatabase(reply),
                final(self)@,
                out,
            ),
    {
        match reply {
            Err(e) => Step::Done(
                Err(tool_error(e, "wdfist::seed_ignore_files_from_ignore_database: ")),
            ),
            Ok(rows) => {
                self.seed_ignore_files_from_ignore_database(&rows);
                self.phase = Phase::Items;
                let without_p18 = self.bool_param("wdf_only_items_without_p18");
                self.query_items(Query::Items { without_p18 })
            },
        }
    }

    /// Takes in the items that qualify.
    fn take_items(&mut self, reply: Result<Vec<String>, String>) -> (out: Step)
        requires
            old(self).phase is Idle,
        ensures
            run_step(
                FistView { phase: PhaseView::Items, ..old(self)@ },
                Reply::Rows(reply),
                final(self)@,
                out,
            ),
    {
        match reply {
            Err(e) => Step::Done(Err(e)),
            Ok(rows) => {
                let none = rows.is_empty();
                self.filter_items(rows);
                if none {
                    return no_files("No items qualify");
                }
                self.proceed(0)
            },
        }
    }

    /// Takes in the pages about the items.
    fn follow_language_links(&mut self, reply: Result<Vec<(u64, String, String)>, String>) -> (out:
        Step)
        requires
            old(self).phase is Idle,
        ensures
            run_step(
                FistView { phase: PhaseView::LanguageLinks, ..old(self)@ },
                Reply::Links(reply),
                final(self)@,
                out,
            ),
    {
        match reply {
            Err(e) => Step::Done(Err(e)),
            Ok(rows) => {
                let groups = get_language_links(&rows);
                let ghost all = groups;
                let pending = groups.into_entries();
                let ghost jobs = job_texts(pending@);
                let ghost goal = grouped(link_texts(rows@));
                proof {
                    let order = all.order();
                    assert forall|i: int| 0 <= i < jobs.len() implies goal.contains_key(
                        (#[trigger] jobs[i]).0,
                    ) && goal[jobs[i].0] == jobs[i].1 by {
                        assert(pending@[i].0@ == order[i]);
                        assert(group_texts(all@).contains_key(jobs[i].0));
                    }
                    assert forall|i: int, j: int| 0 <= i < j < jobs.len() implies (
                    #[trigger] jobs[i]).0 != (#[trigger] jobs[j]).0 by {
                        assert(pending@[i].0@ == order[i]);
                        assert(pending@[j].0@ == order[j]);
                    }
                    assert forall|wiki: Seq<char>| #[trigger] goal.contains_key(
                        wiki,
                    ) implies exists|i: int|
                        0 <= i < jobs.len() && (#[trigger] jobs[i]).0 == wiki by {
                        assert(all@.contains_key(wiki));
                        assert(order.to_set().contains(wiki));
                        let i = choose|i: int| 0 <= i < order.len() && order[i] == wiki;
                        assert(pending@[i].0@ == order[i]);
                        assert(jobs[i].0 == wiki);
                    }
                    assert(pair_texts(Seq::empty()) =~= Seq::empty());
                }
                self.turn_to_wiki(pending, Vec::new(), None)
            },
        }
    }

    /// Takes in files on pages of a wiki.
    fn take_images(
        &mut self,
        work: LinkWork,
        reply: Result<Vec<(String, String)>, String>,
    ) -> (out: Step)
        requires
            old(self).phase is Idle,
            awaits(
                FistView { phase: PhaseView::ImageLinks(work@), ..old(self)@ },
                Reply::Pairs(reply),
            ),
        ensures
            run_step(
                FistView { phase: PhaseView::ImageLinks(work@), ..old(self)@ },
                Reply::Pairs(reply),
                final(self)@,
                out,
            ),
    {
        match reply {
            Err(e) => self.turn_to_wiki(work.pending, work.found, Some(e)),
            Ok(page_file) => {
                if self.bool_param("wdf_only_page_images") {
                    let keys = sort_dedup(firsts(&page_file));
                    let wiki = work.wiki.clone();
                    self.phase = Phase::PageImages(work, page_file);
                    return Step::Ask(Request::Query { wiki, query: Query::PageImages, keys });
                }
                self.take_page_files(work, page_file)
            },
        }
    }

    /// Takes in files on pages of a wiki that count for their items.
    fn take_page_files(&mut self, work: LinkWork, page_file: Vec<(String, String)>) -> (out: Step)
        requires
            countable(
                old(self)@,
                work@.pending.len(),
                work@.found + linked(pair_texts(page_file@), work@.page2q),
                work@.error is Some,
            ),
        ensures
            next_wiki(
                old(self)@,
                work@.pending,
                work@.found + linked(pair_texts(page_file@), work@.page2q),
                work@.error,
                final(self)@,
                out,
            ),
    {
        let ghost view = work@;
        let mut more = link_files(&page_file, &work.page2q);
        let LinkWork { wiki: _, page2q: _, pending, found, error } = work;
        let mut found = found;
        let ghost all = pair_texts(found@) + pair_texts(more@);
        found.append(&mut more);
        proof {
            assert(pair_texts(found@) =~= all);
        }
        self.turn_to_wiki(pending, found, error)
    }

    /// Takes in the page images of pages on which files have been found.
    fn filter_page_images(
        &mut self,
        work: LinkWork,
        page_file: Vec<(String, String)>,
        reply: Result<Vec<(String, String)>, String>,
    ) -> (out: Step)
        requires
            old(self).phase is Idle,
            awaits(
                FistView {
                    phase: PhaseView::PageImages(work@, pair_texts(page_file@)),
                    ..old(self)@
                },
                Reply::Pairs(reply),
            ),
        ensures
            run_step(
                FistView {
                    phase: PhaseView::PageImages(work@, pair_texts(page_file@)),
                    ..old(self)@
                },
                Reply::Pairs(reply),
                final(self)@,
                out,
            ),
    {
        match reply {
            Err(e) => self.turn_to_wiki(work.pending, work.found, Some(e)),
            Ok(rows) => {
                let kept = keep_those_in(&rows, &page_file);
                self.take_page_files(work, kept)
            },
        }
    }

    /// Takes in the coordinates of the items.
    fn follow_coords(&mut self, reply: Result<Vec<(String, String, String)>, String>) -> (out: Step)
        requires
            old(self).phase is Idle,
        ensures
            run_step(
                FistView { phase: PhaseView::Coordinates, ..old(self)@ },
                Reply::Coordinates(reply),
                final(self)@,
                out,
            ),
    {
        match reply {
            Err(e) => Step::Done(Err(e)),
            Ok(rows) => {
                let ghost goal = place_jobs(rows@);
                let mut pending: Vec<(String, Vec<(String, String)>)> = Vec::new();
                let mut i: usize = 0;
                while i < rows.len()
                    invariant
                        i <= rows@.len(),
                        goal == place_jobs(rows@),
                        job_texts(pending@) == goal.take(i as int),
                    decreases rows@.len() - i,
                {
                    let params = ask_nearby(rows[i].1.as_str(), rows[i].2.as_str());
                    pending.push((rows[i].0.clone(), params));
                    proof {
                        assert(goal.take(i + 1) =~= goal.take(i as int).push(goal[i as int]));
                    }
                    i += 1;
                }
                proof {
                    assert(goal.take(i as int) =~= goal);
                    assert(pair_texts(Seq::empty()) =~= Seq::empty());
                }
                self.turn_to_item(true, pending, Vec::new(), false)
            },
        }
    }

    /// Takes in the labels of the items.
    fn follow_search_commons(&mut self, reply: Result<Vec<(String, String)>, String>) -> (out: Step)
        requires
            old(self).phase is Idle,
        ensures
            run_step(
                FistView { phase: PhaseView::Labels, ..old(self)@ },
                Reply::Pairs(reply),
                final(self)@,
                out,
            ),
    {
        match reply {
            Err(e) => Step::Done(Err(e)),
            Ok(rows) => {
                let ghost goal = label_jobs(rows@);
                let mut pending: Vec<(String, Vec<(String, String)>)> = Vec::new();
                let mut i: usize = 0;
                while i < rows.len()
                    invariant
                        i <= rows@.len(),
                        goal == label_jobs(rows@),
                        job_texts(pending@) == goal.take(i as int),
                    decreases rows@.len() - i,
                {
                    let params = ask_search(rows[i].1.as_str());
                    pending.push((rows[i].0.clone(), params));
                    proof {
                        assert(goal.take(i + 1) =~= goal.take(i as int).push(goal[i as int]));
                    }
                    i += 1;
                }
                proof {
                    assert(goal.take(i as int) =~= goal);
                    assert(pair_texts(Seq::empty()) =~= Seq::empty());
                }
                self.turn_to_item(false, pending, Vec::new(), false)
            },
        }
    }

    /// Takes in what an API says.
    fn take_search(&mut self, work: SearchWork, reply: SearchReply) -> (out: Step)
        requires
            old(self).phase is Idle,
            awaits(
                FistView { phase: PhaseView::Search(work@), ..old(self)@ },
                Reply::Search(reply),
            ),
        ensures
            run_step(
                FistView { phase: PhaseView::Search(work@), ..old(self)@ },
                Reply::Search(reply),
                final(self)@,
                out,
            ),
    {
        let SearchWork { nearby, item, pending, found, no_api } = work;
        let mut found = found;
        let mut no_api = no_api;
        match reply {
            SearchReply::NoApi => {
                no_api = true;
            },
            SearchReply::Failed => {},
            SearchReply::Answer(answer) => {
                let list = if nearby {
                    "geosearch"
                } else {
                    "search"
                };
                let mut more = found_files(&item, &answer, list);
                let ghost all = pair_texts(found@) + pair_texts(more@);
                found.append(&mut more);
                proof {
                    assert(pair_texts(found@) =~= all);
                }
            },
        }
        self.turn_to_item(nearby, pending, found, no_api)
    }

    /// Ends the search with the files that remain.
    fn complete(&mut self, used: Vec<String>) -> (out: Step)
        requires
            old(self).phase is Idle,
        ensures
            completes(old(self)@, texts(used@), final(self)@, out),
    {
        self.filter_files_five_or_is_used(used);
        self.remove_items_with_no_file_candidates();
        Step::Done(Ok(RunResult { status: "OK".to_string(), data: self.item2files.rows() }))
    }

    /// Takes in the files to ignore for the items.
    fn take_ignored_files(
        &mut self,
        reply: Result<Vec<Result<Vec<Option<(String, String)>>, String>>, ToolError>,
    ) -> (out: Step)
        requires
            old(self).phase is Idle,
        ensures
            run_step(
                FistView { phase: PhaseView::IgnoredFiles, ..old(self)@ },
                Reply::IgnoredFiles(reply),
                final(self)@,
                out,
            ),
    {
        match reply {
            Err(e) => Step::Done(
                Err(tool_error(e, "wdfist::filter_files_from_ignore_database: ")),
            ),
            Ok(batches) => {
                if let Err(e) = self.filter_files_from_ignore_database(&batches) {
                    return Step::Done(Err(e));
                }
                match self.files_to_check() {
                    Some(keys) => {
                        proof {
                            assert(texts(keys@).to_set() =~= listed_files(self@.item2files));
                        }
                        self.phase = Phase::UsedFiles;
                        Step::Ask(
                            Request::Query {
                                wiki: WIKIDATA_WIKI.to_string(),
                                query: Query::UsedFiles,
                                keys,
                            },
                        )
                    },
                    None => {
                        proof {
                            assert(texts(Seq::empty()) =~= Seq::empty());
                        }
                        self.complete(Vec::new())
                    },
                }
            },
        }
    }

    /// Takes in the files that items use.
    fn take_used_files(&mut self, reply: Result<Vec<String>, String>) -> (out: Step)
        requires
            old(self).phase is Idle,
        ensures
            run_step(
                FistView { phase: PhaseView::UsedFiles, ..old(self)@ },
                Reply::Rows(reply),
                final(self)@,
                out,
            ),
    {
        match reply {
            Err(e) => Step::Done(Err(e)),
            Ok(rows) => self.complete(rows),
        }
    }

    /// Tells whether the files found before and `more` can be counted, if it is
    /// time to.
    fn can_count(
        &self,
        pending: usize,
        found: &Vec<(String, String)>,
        more: &Vec<(String, String)>,
        failed: bool,
    ) -> (yes: bool)
        ensures
            yes == countable(
                self@,
                pending as nat,
                pair_texts(found@) + pair_texts(more@),
                failed,
            ),
    {
        pending > 0 || failed || self.item2files.has_room(found, more)
    }

    /// Tells whether the reply is to what was asked for, and can be taken in.
    pub fn can_take(&self, reply: &Reply) -> (yes: bool)
        ensures
            yes == awaits(self@, *reply),
    {
        match (&self.phase, reply) {
            (Phase::Idle, Reply::Begin) => true,
            (Phase::IgnorePage, Reply::IgnorePage(_)) => true,
            (Phase::IgnoreDatabase, Reply::IgnoreDatabase(_)) => true,
            (Phase::Items, Reply::Rows(_)) => true,
            (Phase::LanguageLinks, Reply::Links(_)) => true,
            (Phase::ImageLinks(work), Reply::Pairs(reply)) => match reply {
                Ok(page_file) => {
                    if self.bool_param("wdf_only_page_images") {
                        return true;
                    }
                    let more = link_files(page_file, &work.page2q);
                    self.can_count(
                        work.pending.len(),
                        &work.found,
                        &more,
                        work.error.is_some(),
                    )
                },
                Err(_) => true,
            },
            (Phase::PageImages(work, page_file), Reply::Pairs(reply)) => match reply {
                Ok(rows) => {
                    let kept = keep_those_in(rows, page_file);
                    let more = link_files(&kept, &work.page2q);
                    self.can_count(
                        work.pending.len(),
                        &work.found,
                        &more,
                        work.error.is_some(),
                    )
                },
                Err(_) => true,
            },
            (Phase::Coordinates, Reply::Coordinates(_)) => true,
            (Phase::Labels, Reply::Pairs(_)) => true,
            (Phase::Search(work), Reply::Search(reply)) => {
                proof {
                    assert(pair_texts(Seq::empty()) =~= Seq::empty());
                    assert(work@.found + Seq::empty() =~= work@.found);
                }
                let (more, failed): (Vec<(String, String)>, bool) = match reply {
                    SearchReply::NoApi => (Vec::new(), true),
                    SearchReply::Failed => (Vec::new(), work.no_api),
                    SearchReply::Answer(answer) => {
                        let list = if work.nearby {
                            "geosearch"
                        } else {
                            "search"
                        };
                        if !can_read(answer, list) {
                            return false;
                        }
                        (found_files(&work.item, answer, list), work.no_api)
                    },
                };
                self.can_count(work.pending.len(), &work.found, &more, failed)
            },
            (Phase::IgnoredFiles, Reply::IgnoredFiles(_)) => true,
            (Phase::UsedFiles, Reply::Rows(_)) => true,
            _ => false,
        }
    }

    /// Runs the search one step further: takes in the reply to what was asked
    /// for last, and hands out what is asked for next, or what the search has
    /// come to.
    pub fn run(&mut self, reply: Reply) -> (out: Step)
        requires
            awaits(old(self)@, reply),
        ensures
            run_step(old(self)@, reply, final(self)@, out),
    {
        let mut phase = Phase::Idle;
        std::mem::swap(&mut self.phase, &mut phase);
        match (phase, reply) {
            (Phase::Idle, Reply::Begin) => self.begin(),
            (Phase::IgnorePage, Reply::IgnorePage(reply)) => self.take_page(reply),
            (Phase::IgnoreDatabase, Reply::IgnoreDatabase(reply)) => self.take_ignored(reply),
            (Phase::Items, Reply::Rows(reply)) => self.take_items(reply),
            (Phase::LanguageLinks, Reply::Links(reply)) => self.follow_language_links(reply),
            (Phase::ImageLinks(work), Reply::Pairs(reply)) => self.take_images(work, reply),
            (Phase::PageImages(work, page_file), Reply::Pairs(reply)) => self.filter_page_images(
                work,
                page_file,
                reply,
            ),
            (Phase::Coordinates, Reply::Coordinates(reply)) => self.follow_coords(reply),
            (Phase::Labels, Reply::Pairs(reply)) => self.follow_search_commons(reply),
            (Phase::Search(work), Reply::Search(reply)) => self.take_search(work, reply),
            (Phase::IgnoredFiles, Reply::IgnoredFiles(reply)) => self.take_ignored_files(reply),
            (Phase::UsedFiles, Reply::Rows(reply)) => self.take_used_files(reply),
            _ => vstd::pervasive::unreached(),
        }
    }
}

} // verus!

use wdfist::answer::Answer;
use wdfist::phase::{PageReply, Phase, Reply, Request, RunResult, SearchReply, Step, ToolError};
use wdfist::query::Query;
use wdfist::string_map::StringMap;
use wdfist::wdfist::{FormParameters, WDfist};

fn strings(texts: &[&str]) -> Vec<String> {
    texts.iter().map(|s| s.to_string()).collect()
}

fn pairs(texts: &[(&str, &str)]) -> Vec<(String, String)> {
    texts.iter().map(|(a, b)| (a.to_string(), b.to_string())).collect()
}

fn search(params: &[&str], items: &[&str]) -> WDfist {
    let params: Vec<(&str, &str)> = params.iter().map(|name| (*name, "1")).collect();
    let mut wdfist = WDfist::new(FormParameters::new(&pairs(&params)), &None).unwrap();
    wdfist.items = strings(items);
    wdfist
}

fn with_files(params: &[&str], items: &[&str], phase: Phase) -> WDfist {
    let mut wdfist = search(params, items);
    for item in items {
        let mut files: StringMap<usize> = StringMap::new();
        files.insert("a.jpg".to_string(), 1);
        files.insert("b.jpg".to_string(), 2);
        wdfist.item2files.insert(item.to_string(), files);
    }
    wdfist.phase = phase;
    wdfist
}

fn failed(step: Step) -> String {
    match step {
        Step::Done(Err(e)) => e,
        _ => panic!("the search is to fail"),
    }
}

fn result(step: Step) -> RunResult {
    match step {
        Step::Done(Ok(result)) => result,
        _ => panic!("the search is to have a result"),
    }
}

fn data(step: Step) -> Vec<(String, Vec<(String, usize)>)> {
    let mut data = result(step).data;
    for row in data.iter_mut() {
        row.1.sort();
    }
    data.sort();
    data
}

fn row(item: &str, files: &[(&str, usize)]) -> (String, Vec<(String, usize)>) {
    (item.to_string(), files.iter().map(|(file, count)| (file.to_string(), *count)).collect())
}

fn asked(step: Step) -> (String, Query, Vec<String>) {
    match step {
        Step::Ask(Request::Query { wiki, query, keys }) => (wiki, query, keys),
        _ => panic!("a database is to be asked"),
    }
}

fn answer(list: &str, titles: &[&str]) -> Reply {
    let results: Vec<Answer> = titles
        .iter()
        .map(|title| Answer::Object(vec![("title".to_string(), Answer::Text(title.to_string()))]))
        .collect();
    let lists = Answer::Object(vec![(list.to_string(), Answer::Array(results))]);
    Reply::Search(SearchReply::Answer(Answer::Object(vec![("query".to_string(), lists)])))
}

fn is_idle(wdfist: &WDfist) -> bool {
    matches!(wdfist.phase, Phase::Idle)
}

#[test]
fn a_search_without_items_is_over_at_once() {
    let mut wdfist = search(&["wdf_allow_svg"], &[]);
    let end = result(wdfist.run(Reply::Begin));
    assert_eq!(end.status, "No items from original query");
    assert!(end.data.is_empty());
    assert!(wdfist.wdf_allow_svg);
    assert!(!wdfist.wdf_only_jpeg);
    assert!(is_idle(&wdfist));
}

#[test]
fn a_search_for_items_that_do_not_qualify_is_over() {
    let mut wdfist = search(&[], &["Q1"]);
    wdfist.phase = Phase::Items;
    let end = result(wdfist.run(Reply::Rows(Ok(vec![]))));
    assert_eq!(end.status, "No items qualify");
    assert!(end.data.is_empty());
    assert!(wdfist.items.is_empty());
    assert!(is_idle(&wdfist));
}

#[test]
fn a_search_takes_all_its_steps() {
    let mut wdfist = search(
        &[
            "wdf_only_jpeg",
            "wdf_langlinks",
            "wdf_coords",
            "wdf_search_commons",
            "wdf_commons_cats",
            "wdf_only_files_not_on_wd",
            "wdf_max_five_results",
        ],
        &["Q1", "Q2"],
    );
    match wdfist.run(Reply::Begin) {
        Step::Ask(Request::Page { api, url }) => {
            assert_eq!(api, "https://www.wikidata.org/w/api.php");
            assert_eq!(
                url,
                "http://www.wikidata.org/w/index.php?title=User:Magnus_Manske/FIST_icons&action=raw"
            );
        }
        _ => panic!("the list of files to ignore is to be asked for"),
    }
    assert!(wdfist.wdf_only_jpeg);
    let page = Reply::IgnorePage(PageReply::Text("* Icon one.jpg\n* Icon two.png".to_string()));
    match wdfist.run(page) {
        Step::Ask(Request::ToolDatabase { sql }) => {
            assert_eq!(sql, wdfist::query::ignore_query());
        }
        _ => panic!("the database of files to ignore is to be asked"),
    }
    assert!(wdfist.files2ignore.contains("Icon_one.jpg"));
    assert!(!wdfist.files2ignore.contains("Icon_two.png"));
    let rows = Ok(vec![Some("Icon three.jpg".to_string()), None]);
    let (wiki, query, keys) = asked(wdfist.run(Reply::IgnoreDatabase(rows)));
    assert_eq!(wiki, "wikidatawiki");
    assert!(matches!(query, Query::Items { without_p18: false }));
    assert_eq!(keys, strings(&["Q1", "Q2"]));

    let (wiki, query, keys) = asked(wdfist.run(Reply::Rows(Ok(strings(&["Q2", "Q1"])))));
    assert_eq!(wiki, "wikidatawiki");
    assert!(matches!(query, Query::LanguageLinks));
    assert_eq!(keys, strings(&["Q2", "Q1"]));
    let links = vec![
        (1, "dewiki".to_string(), "Seite eins".to_string()),
        (2, "dewiki".to_string(), "Seite zwei".to_string()),
        (2, "wikidatawiki".to_string(), "Q2".to_string()),
    ];
    let (wiki, query, mut keys) = asked(wdfist.run(Reply::Links(Ok(links))));
    assert_eq!(wiki, "commonswiki");
    assert!(matches!(query, Query::ImageLinks { wiki } if wiki == "dewiki"));
    keys.sort();
    assert_eq!(keys, strings(&["Seite_eins", "Seite_zwei"]));
    let found = pairs(&[
        ("Seite_eins", "a.jpg"),
        ("Seite_zwei", "a.jpg"),
        ("Seite_zwei", "b.png"),
        ("Seite_drei", "c.jpg"),
        ("Seite_eins", "Icon_one.jpg"),
        ("Seite_eins", "Icon_three.jpg"),
    ]);
    let (wiki, query, keys) = asked(wdfist.run(Reply::Pairs(Ok(found))));
    assert_eq!(wiki, "wikidatawiki");
    assert!(matches!(query, Query::Coordinates));
    assert_eq!(keys, strings(&["Q2", "Q1"]));

    let places = vec![
        ("Q1".to_string(), "1".to_string(), "2".to_string()),
        ("Q2".to_string(), "3".to_string(), "4.5".to_string()),
    ];
    let step = wdfist.run(Reply::Coordinates(Ok(places)));
    assert!(matches!(step, Step::Ask(Request::Search { params, .. })
        if params[2] == ("gscoord".to_string(), "3|4.5".to_string())));
    let step = wdfist.run(answer("geosearch", &["File:N y.jpg", "File:Icon one.jpg"]));
    assert!(matches!(step, Step::Ask(Request::Search { params, .. })
        if params[2] == ("gscoord".to_string(), "1|2".to_string())));
    let (wiki, query, _) = asked(wdfist.run(Reply::Search(SearchReply::Failed)));
    assert_eq!(wiki, "wikidatawiki");
    assert!(matches!(query, Query::Labels));

    let step = wdfist.run(Reply::Pairs(Ok(pairs(&[("Q1", "Erstes Ding")]))));
    assert!(matches!(step, Step::Ask(Request::Search { params, .. })
        if params[3] == ("srsearch".to_string(), "Erstes Ding".to_string())));
    match wdfist.run(answer("search", &["File:a.jpg", "File:S.JPG"])) {
        Step::Ask(Request::ToolQuery { query, mut keys }) => {
            assert!(matches!(query, Query::IgnoredFiles));
            keys.sort();
            assert_eq!(keys, strings(&["Q1", "Q2"]));
        }
        _ => panic!("the files to ignore are to be asked for"),
    }

    let ignored = vec![Ok(vec![Some(("Q2".to_string(), "a.jpg".to_string()))])];
    let (wiki, query, mut keys) = asked(wdfist.run(Reply::IgnoredFiles(Ok(ignored))));
    assert_eq!(wiki, "wikidatawiki");
    assert!(matches!(query, Query::UsedFiles));
    keys.sort();
    assert_eq!(keys, strings(&["N_y.jpg", "S.JPG", "a.jpg"]));
    let step = wdfist.run(Reply::Rows(Ok(strings(&["S.JPG"]))));
    assert_eq!(data(step), vec![row("Q1", &[("a.jpg", 2)]), row("Q2", &[("N_y.jpg", 1)])]);
    assert!(is_idle(&wdfist));
}

#[test]
fn the_page_of_ignored_files_may_be_missing() {
    let mut wdfist = search(&[], &["Q1"]);
    wdfist.run(Reply::Begin);
    let step = wdfist.run(Reply::IgnorePage(PageReply::NoApi));
    assert_eq!(failed(step), "Can't open Wikidata API");
    assert!(is_idle(&wdfist));
    wdfist.run(Reply::Begin);
    let step = wdfist.run(Reply::IgnorePage(PageReply::Failed("no".to_string())));
    assert_eq!(
        failed(step),
        "Can't load ignore list from http://www.wikidata.org/w/index.php?title=User:Magnus_Manske/FIST_icons&action=raw : no"
    );
}

#[test]
fn the_tool_database_may_fail() {
    let errors = || {
        vec![
            ToolError::BadMutex("m".to_string()),
            ToolError::NoConnection("n".to_string()),
            ToolError::Query("q".to_string()),
        ]
    };
    let messages: Vec<String> = errors()
        .into_iter()
        .map(|e| {
            let mut wdfist = search(&[], &["Q1"]);
            wdfist.phase = Phase::IgnoreDatabase;
            failed(wdfist.run(Reply::IgnoreDatabase(Err(e))))
        })
        .collect();
    assert_eq!(
        messages,
        strings(&["Bad mutex: m", "n", "wdfist::seed_ignore_files_from_ignore_database: q"])
    );
    let messages: Vec<String> = errors()
        .into_iter()
        .map(|e| {
            let mut wdfist = with_files(&[], &["Q1"], Phase::IgnoredFiles);
            let message = failed(wdfist.run(Reply::IgnoredFiles(Err(e))));
            assert_eq!(wdfist.item2files.get("Q1").unwrap().len(), 2);
            message
        })
        .collect();
    assert_eq!(
        messages,
        strings(&["Bad mutex: m", "n", "wdfist::filter_files_from_ignore_database: q"])
    );
}

#[test]
fn the_databases_of_wikis_may_fail() {
    let no = || "no".to_string();
    let mut wdfist = search(&[], &["Q1"]);
    wdfist.phase = Phase::Items;
    assert_eq!(failed(wdfist.run(Reply::Rows(Err(no())))), "no");
    assert_eq!(wdfist.items, strings(&["Q1"]));
    wdfist.phase = Phase::LanguageLinks;
    assert_eq!(failed(wdfist.run(Reply::Links(Err(no())))), "no");
    wdfist.phase = Phase::Coordinates;
    assert_eq!(failed(wdfist.run(Reply::Coordinates(Err(no())))), "no");
    wdfist.phase = Phase::Labels;
    assert_eq!(failed(wdfist.run(Reply::Pairs(Err(no())))), "no");
    wdfist.phase = Phase::UsedFiles;
    assert_eq!(failed(wdfist.run(Reply::Rows(Err(no())))), "no");
    assert!(is_idle(&wdfist));
}

#[test]
fn a_wiki_that_fails_ends_the_search_after_the_others() {
    let links = || {
        Reply::Links(Ok(vec![
            (1, "dewiki".to_string(), "A".to_string()),
            (1, "enwiki".to_string(), "A".to_string()),
        ]))
    };
    let mut wdfist = search(&[], &["Q1"]);
    wdfist.phase = Phase::LanguageLinks;
    asked(wdfist.run(links()));
    asked(wdfist.run(Reply::Pairs(Err("no".to_string()))));
    let step = wdfist.run(Reply::Pairs(Ok(pairs(&[("A", "a.jpg")]))));
    assert_eq!(failed(step), "no");
    assert!(wdfist.item2files.is_empty());
    assert!(is_idle(&wdfist));
    // The error that comes last is told.
    wdfist.phase = Phase::LanguageLinks;
    asked(wdfist.run(links()));
    asked(wdfist.run(Reply::Pairs(Err("no".to_string()))));
    assert_eq!(failed(wdfist.run(Reply::Pairs(Err("never".to_string())))), "never");
}

#[test]
fn page_images_may_fail() {
    let mut wdfist = search(&["wdf_only_page_images"], &["Q1"]);
    wdfist.phase = Phase::LanguageLinks;
    let links = vec![
        (1, "dewiki".to_string(), "A b".to_string()),
        (2, "dewiki".to_string(), "C".to_string()),
    ];
    asked(wdfist.run(Reply::Links(Ok(links))));
    let found = pairs(&[("C", "c.jpg"), ("A_b", "a.jpg"), ("C", "d.jpg")]);
    let (wiki, query, keys) = asked(wdfist.run(Reply::Pairs(Ok(found))));
    assert_eq!(wiki, "dewiki");
    assert!(matches!(query, Query::PageImages));
    assert_eq!(keys, strings(&["A_b", "C"]));
    assert_eq!(failed(wdfist.run(Reply::Pairs(Err("no".to_string())))), "no");
    assert!(wdfist.item2files.is_empty());
}

#[test]
fn an_api_that_cannot_be_used_ends_the_search_after_the_others() {
    for nearby in [true, false] {
        let mut wdfist = search(&[], &["Q1", "Q2"]);
        let (step, list) = if nearby {
            wdfist.phase = Phase::Coordinates;
            let place = |q: &str| (q.to_string(), "1".to_string(), "2".to_string());
            (wdfist.run(Reply::Coordinates(Ok(vec![place("Q1"), place("Q2")]))), "geosearch")
        } else {
            wdfist.phase = Phase::Labels;
            (wdfist.run(Reply::Pairs(Ok(pairs(&[("Q1", "a"), ("Q2", "b")])))), "search")
        };
        assert!(matches!(step, Step::Ask(Request::Search { .. })));
        let step = wdfist.run(Reply::Search(SearchReply::NoApi));
        assert!(matches!(step, Step::Ask(Request::Search { .. })));
        assert_eq!(failed(wdfist.run(answer(list, &["File:a.jpg"]))), "Can't get Commons API");
        assert!(wdfist.item2files.is_empty());
        assert!(is_idle(&wdfist));
    }
}

#[test]
fn sources_without_rows_are_passed() {
    let mut wdfist = search(&["wdf_coords", "wdf_search_commons"], &["Q1"]);
    wdfist.phase = Phase::LanguageLinks;
    let (_, query, _) = asked(wdfist.run(Reply::Links(Ok(vec![]))));
    assert!(matches!(query, Query::Coordinates));
    let (_, query, _) = asked(wdfist.run(Reply::Coordinates(Ok(vec![]))));
    assert!(matches!(query, Query::Labels));
    match wdfist.run(Reply::Pairs(Ok(vec![]))) {
        Step::Ask(Request::ToolQuery { keys, .. }) => assert!(keys.is_empty()),
        _ => panic!("the files to ignore are to be asked for"),
    }
}

#[test]
fn a_refused_batch_ends_the_search() {
    let mut wdfist = with_files(&[], &["Q1"], Phase::IgnoredFiles);
    let batches = vec![
        Ok(vec![Some(("Q1".to_string(), "a.jpg".to_string()))]),
        Err("no".to_string()),
    ];
    let step = wdfist.run(Reply::IgnoredFiles(Ok(batches)));
    assert_eq!(failed(step), "wdfist::filter_files_from_ignore_database: no");
    assert_eq!(wdfist.item2files.get("Q1").unwrap().len(), 1);
}

#[test]
fn used_files_are_asked_for_only_if_there_are_files() {
    let mut wdfist = with_files(&["wdf_only_files_not_on_wd"], &["Q1"], Phase::IgnoredFiles);
    let all = vec![
        Some(("Q1".to_string(), "a.jpg".to_string())),
        Some(("Q1".to_string(), "b.jpg".to_string())),
    ];
    let end = result(wdfist.run(Reply::IgnoredFiles(Ok(vec![Ok(all)]))));
    assert_eq!(end.status, "OK");
    assert!(end.data.is_empty());
    let mut wdfist = with_files(&[], &["Q1"], Phase::IgnoredFiles);
    let step = wdfist.run(Reply::IgnoredFiles(Ok(vec![])));
    assert_eq!(data(step), vec![row("Q1", &[("a.jpg", 1), ("b.jpg", 2)])]);
    let mut wdfist = with_files(&["wdf_only_files_not_on_wd"], &["Q1"], Phase::IgnoredFiles);
    asked(wdfist.run(Reply::IgnoredFiles(Ok(vec![]))));
    let step = wdfist.run(Reply::Rows(Ok(strings(&["a.jpg"]))));
    assert_eq!(data(step), vec![row("Q1", &[("b.jpg", 2)])]);
}

#[test]
fn files_of_too_many_items_are_dropped_at_the_end() {
    let items = ["Q1", "Q2", "Q3", "Q4", "Q5"];
    let mut wdfist = with_files(&["wdf_max_five_results"], &items, Phase::IgnoredFiles);
    let ignored = vec![Ok(vec![Some(("Q3".to_string(), "b.jpg".to_string()))])];
    let found = data(wdfist.run(Reply::IgnoredFiles(Ok(ignored))));
    assert_eq!(found.len(), 4);
    assert!(found.iter().all(|(item, files)| item != "Q3" && *files == vec![("b.jpg".to_string(), 2)]));
}

#[test]
fn replies_are_taken_if_they_were_awaited() {
    let mut wdfist = search(&[], &["Q1"]);
    assert!(wdfist.can_take(&Reply::Begin));
    assert!(!wdfist.can_take(&Reply::Rows(Ok(vec![]))));
    wdfist.run(Reply::Begin);
    assert!(!wdfist.can_take(&Reply::Begin));
    assert!(wdfist.can_take(&Reply::IgnorePage(PageReply::NoApi)));
    wdfist.phase = Phase::Labels;
    let labels = Reply::Pairs(Ok(pairs(&[("Q1", "a")])));
    assert!(wdfist.can_take(&labels));
    wdfist.run(labels);
    assert!(wdfist.can_take(&answer("search", &["File:a.jpg"])));
    assert!(!wdfist.can_take(&answer("search", &["a.j"])));
    assert!(wdfist.can_take(&answer("geosearch", &["a.j"])));
}

#[test]
fn counts_that_cannot_grow_are_told() {
    let mut wdfist = search(&[], &["Q1"]);
    let mut files: StringMap<usize> = StringMap::new();
    files.insert("a.jpg".to_string(), usize::MAX - 1);
    wdfist.item2files.insert("Q1".to_string(), files);
    let once = pairs(&[("Q1", "a.jpg"), ("Q1", "b.jpg"), ("Q2", "a.jpg")]);
    let again = pairs(&[("Q1", "b.jpg"), ("Q1", "a.jpg")]);
    assert!(wdfist.item2files.has_room(&once, &vec![]));
    assert!(wdfist.item2files.has_room(&vec![], &once));
    assert!(!wdfist.item2files.has_room(&once, &again));
    assert!(wdfist.item2files.has_room(&again, &vec![]));
    wdfist.phase = Phase::Labels;
    wdfist.run(Reply::Pairs(Ok(pairs(&[("Q1", "a")]))));
    assert!(wdfist.can_take(&answer("search", &["File:a.jpg"])));
    assert!(wdfist.can_take(&answer("search", &["File:a.jpg", "File:b.jpg"])));
    assert!(!wdfist.can_take(&answer("search", &["File:a.jpg", "File:a.jpg"])));
    assert!(wdfist.can_take(&Reply::Search(SearchReply::NoApi)));
    wdfist.run(answer("search", &["File:a.jpg"]));
    assert_eq!(wdfist.item2files.get("Q1").unwrap().get("a.jpg"), Some(&usize::MAX));
}

use wdfist::answer::Answer;
use wdfist::pagelist::{PageList, PageListEntry};
use wdfist::phase::{PageReply, Phase, Reply, Request, SearchReply, Step};
use wdfist::query::Query;
use wdfist::string_map::StringMap;
use wdfist::title::Title;
use wdfist::wdfist::{FormParameters, WDfist};

fn strings(texts: &[&str]) -> Vec<String> {
    texts.iter().map(|s| s.to_string()).collect()
}

fn pairs(texts: &[(&str, &str)]) -> Vec<(String, String)> {
    texts.iter().map(|(a, b)| (a.to_string(), b.to_string())).collect()
}

fn get_wdfist(params: Vec<(&str, &str)>, items: Vec<&str>) -> WDfist {
    let mut wdfist = WDfist::new(FormParameters::new(&pairs(&params)), &None).unwrap();
    wdfist.items = strings(&items);
    wdfist
}

fn set_item2files(wdfist: &mut WDfist, q: &str, files: Vec<(&str, usize)>) {
    let mut map: StringMap<usize> = StringMap::new();
    for (file, count) in files {
        map.insert(file.to_string(), count);
    }
    wdfist.item2files.insert(q.to_string(), map);
}

fn rows(wdfist: &WDfist) -> Vec<(String, Vec<(String, usize)>)> {
    let mut rows = wdfist.item2files.rows();
    for row in rows.iter_mut() {
        row.1.sort();
    }
    rows.sort();
    rows
}

fn row(item: &str, files: &[(&str, usize)]) -> (String, Vec<(String, usize)>) {
    (item.to_string(), files.iter().map(|(file, count)| (file.to_string(), *count)).collect())
}

fn file_count(wdfist: &WDfist, q: &str) -> usize {
    wdfist.item2files.get(q).unwrap().len()
}

fn has_file(wdfist: &WDfist, q: &str, file: &str) -> bool {
    wdfist.item2files.get(q).unwrap().contains_key(file)
}

#[test]
fn test_wdfist_filter_items() {
    let params: Vec<(&str, &str)> = vec![("wdf_only_items_without_p18", "1")];
    let items: Vec<&str> = vec![
        "Q63810120", // Some scientific paper, unlikely to ever get an image, designated survivor of this test
        "Q13520818", // Magnus Manske, has image
        "Q1782953",  // List item
        "Q21002367", // Disambig item
        "Q10000067", // Redirect
    ];
    let mut wdfist = get_wdfist(params, items.clone());
    assert!(matches!(wdfist.run(Reply::Begin), Step::Ask(Request::Page { .. })));
    let page = Reply::IgnorePage(PageReply::Text(String::new()));
    assert!(matches!(wdfist.run(page), Step::Ask(Request::ToolDatabase { .. })));
    match wdfist.run(Reply::IgnoreDatabase(Ok(vec![]))) {
        Step::Ask(Request::Query { wiki, query, keys }) => {
            assert_eq!(wiki, "wikidatawiki");
            assert!(matches!(query, Query::Items { without_p18: true }));
            assert_eq!(keys, strings(&items));
        }
        _ => panic!("the items are to be asked for"),
    }
    let step = wdfist.run(Reply::Rows(Ok(strings(&["Q63810120"]))));
    assert!(matches!(step, Step::Ask(Request::ToolQuery { .. })));
    match wdfist.run(Reply::IgnoredFiles(Ok(vec![]))) {
        Step::Done(Ok(result)) => {
            assert_eq!(result.status, "OK");
            assert!(result.data.is_empty());
        }
        _ => panic!("the search is to be over"),
    }
    assert_eq!(wdfist.items, vec!["Q63810120".to_string()]);
}

#[test]
fn test_filter_files_five_or_is_used() {
    let params: Vec<(&str, &str)> = vec![
        ("wdf_max_five_results", "1"),
        ("wdf_only_files_not_on_wd", "1"),
    ];
    let mut wdfist = get_wdfist(params, vec![]);
    set_item2files(&mut wdfist, "Q1", vec![("More_than_5.jpg", 0)]);
    set_item2files(&mut wdfist, "Q2", vec![("More_than_5.jpg", 0)]);
    set_item2files(
        &mut wdfist,
        "Q3",
        vec![
            ("More_than_5.jpg", 0),
            ("Douglas_adams_portrait_cropped.jpg", 0),
        ],
    );
    set_item2files(&mut wdfist, "Q4", vec![("More_than_5.jpg", 0)]);
    set_item2files(
        &mut wdfist,
        "Q5",
        vec![
            ("More_than_5.jpg", 0),
            ("This_is_a_test_no_such_file_exists.jpg", 0),
        ],
    );
    set_item2files(&mut wdfist, "Q6", vec![("More_than_5.jpg", 0)]);
    let mut asked = wdfist.files_to_check().unwrap();
    asked.sort();
    assert_eq!(
        asked,
        strings(&[
            "Douglas_adams_portrait_cropped.jpg",
            "More_than_5.jpg",
            "This_is_a_test_no_such_file_exists.jpg",
        ])
    );
    wdfist.filter_files_five_or_is_used(strings(&["Douglas_adams_portrait_cropped.jpg"]));
    assert_eq!(
        rows(&wdfist),
        vec![row("Q5", &[("This_is_a_test_no_such_file_exists.jpg", 0)])]
    );
}

#[test]
fn test_is_valid_filename() {
    let params: Vec<(&str, &str)> = vec![];
    let mut wdfist = get_wdfist(params, vec![]);
    assert!(wdfist.is_valid_filename(&"foobar.jpg".to_string()));
    assert!(!wdfist.is_valid_filename(&"foobar.GIF".to_string()));
    assert!(!wdfist.is_valid_filename(&"foobar.pdf".to_string()));
    assert!(wdfist.is_valid_filename(&"some_600px_bs.jpg".to_string()));
    assert!(!wdfist.is_valid_filename(&"some_600px_bs.png".to_string()));
    assert!(!wdfist.is_valid_filename(&"Flag_of_foobar.jpg".to_string()));
    assert!(!wdfist.is_valid_filename(&"fooCrystal_Clear_bar.jpg".to_string()));
    assert!(!wdfist.is_valid_filename(&"fooNuvola_bar.jpg".to_string()));
    assert!(!wdfist.is_valid_filename(&"fooKit_bar.jpg".to_string()));
    wdfist.wdf_allow_svg = true;
    assert!(wdfist.is_valid_filename(&"foobar.svg".to_string()));
    wdfist.wdf_allow_svg = false;
    assert!(!wdfist.is_valid_filename(&"foobar.svg".to_string()));
}

// The pages of Q1481, and what stands on them.
fn links() -> Vec<(u64, String, String)> {
    vec![
        (1481, "dewiki".to_string(), "Felsberg (Hessen)".to_string()),
        (1481, "enwiki".to_string(), "Felsberg, Hesse".to_string()),
        (1481, "wikidatawiki".to_string(), "Q1481".to_string()),
    ]
}

fn images(wiki: &str) -> Vec<(String, String)> {
    let page = if wiki == "dewiki" { "Felsberg_(Hessen)" } else { "Felsberg,_Hesse" };
    let mut images: Vec<(String, String)> = (0..35)
        .map(|n| (page.to_string(), format!("Wappen_{}_{}.svg", wiki, n)))
        .collect();
    images.extend((0..20).map(|n| (page.to_string(), format!("Ansicht_{}_{}.jpg", wiki, n))));
    images.push((page.to_string(), "Felsburg.jpg".to_string()));
    images.push((page.to_string(), "Felsberg_(Hessen).jpg".to_string()));
    images
}

fn follow_language_links(wdfist: &mut WDfist) {
    wdfist.phase = Phase::LanguageLinks;
    let mut step = wdfist.run(Reply::Links(Ok(links())));
    let mut asked: Vec<String> = vec![];
    loop {
        match step {
            Step::Ask(Request::Query { wiki, query: Query::ImageLinks { wiki: of }, keys }) => {
                assert_eq!(wiki, "commonswiki");
                let page = if of == "dewiki" { "Felsberg_(Hessen)" } else { "Felsberg,_Hesse" };
                assert_eq!(keys, strings(&[page]));
                step = wdfist.run(Reply::Pairs(Ok(images(&of))));
                asked.push(of);
            }
            Step::Ask(Request::Query { wiki, query: Query::PageImages, keys }) => {
                assert_eq!(keys.len(), 1);
                let image = if wiki == "dewiki" { "Felsberg_(Hessen).jpg" } else { "Other.jpg" };
                step = wdfist.run(Reply::Pairs(Ok(pairs(&[(&keys[0], image)]))));
            }
            Step::Ask(Request::ToolQuery { .. }) => break,
            _ => panic!("nothing else is to be asked for"),
        }
    }
    asked.sort();
    assert_eq!(asked, strings(&["dewiki", "enwiki"]));
}

#[test]
fn test_follow_language_links() {
    let params: Vec<(&str, &str)> = vec![];
    let mut wdfist = get_wdfist(params, vec!["Q1481"]);

    // All files
    wdfist.wdf_allow_svg = true;
    follow_language_links(&mut wdfist);
    assert!(wdfist.item2files.get("Q1481").is_some());
    assert!(file_count(&wdfist, "Q1481") > 90);

    // No SVG
    wdfist.item2files.remove("Q1481");
    wdfist.wdf_allow_svg = false;
    follow_language_links(&mut wdfist);
    assert!(wdfist.item2files.get("Q1481").is_some());
    assert!(file_count(&wdfist, "Q1481") < 50);
    assert!(has_file(&wdfist, "Q1481", "Felsburg.jpg"));
    assert_eq!(wdfist.item2files.get("Q1481").unwrap().get("Felsburg.jpg"), Some(&2));

    // Page images
    let params: Vec<(&str, &str)> = vec![("wdf_only_page_images", "1")];
    let mut wdfist = get_wdfist(params, vec!["Q1481"]);
    follow_language_links(&mut wdfist);
    assert!(wdfist.item2files.get("Q1481").is_some());
    assert!(file_count(&wdfist, "Q1481") < 50);
    assert!(has_file(&wdfist, "Q1481", "Felsberg_(Hessen).jpg"));
    assert_eq!(rows(&wdfist), vec![row("Q1481", &[("Felsberg_(Hessen).jpg", 1)])]);
}

fn answer(list: &str, titles: Vec<String>) -> Reply {
    let results: Vec<Answer> = titles
        .into_iter()
        .map(|title| Answer::Object(vec![("title".to_string(), Answer::Text(title))]))
        .collect();
    let lists = Answer::Object(vec![(list.to_string(), Answer::Array(results))]);
    let answer = Answer::Object(vec![("query".to_string(), lists)]);
    Reply::Search(SearchReply::Answer(answer))
}

#[test]
fn test_follow_coords() {
    let params: Vec<(&str, &str)> = vec![];
    let mut wdfist = get_wdfist(params, vec!["Q350"]);
    wdfist.phase = Phase::Coordinates;
    let place = ("Q350".to_string(), "52.205276".to_string(), "0.119167".to_string());
    match wdfist.run(Reply::Coordinates(Ok(vec![place]))) {
        Step::Ask(Request::Search { api, params }) => {
            assert_eq!(api, "https://commons.wikimedia.org/w/api.php");
            assert_eq!(params[2], ("gscoord".to_string(), "52.205276|0.119167".to_string()));
        }
        _ => panic!("files nearby are to be asked for"),
    }
    let mut titles: Vec<String> = (0..49).map(|n| format!("File:Cambridge {}.jpg", n)).collect();
    titles.push("File:Cambridge Wikidata dinner.jpg".to_string());
    let step = wdfist.run(answer("geosearch", titles));
    assert!(matches!(step, Step::Ask(Request::ToolQuery { .. })));
    assert!(file_count(&wdfist, "Q350") > 40);
    assert!(has_file(&wdfist, "Q350", "Cambridge_Wikidata_dinner.jpg"));
}

#[test]
fn test_follow_search_commons() {
    let params: Vec<(&str, &str)> = vec![];
    let mut wdfist = get_wdfist(params, vec!["Q66711783"]);
    wdfist.phase = Phase::Labels;
    match wdfist.run(Reply::Pairs(Ok(pairs(&[("Q66711783", "Walter Rueth")])))) {
        Step::Ask(Request::Search { api, params }) => {
            assert_eq!(api, "https://commons.wikimedia.org/w/api.php");
            assert_eq!(params[3], ("srsearch".to_string(), "Walter Rueth".to_string()));
        }
        _ => panic!("files are to be searched for"),
    }
    let mut titles: Vec<String> = (0..9).map(|n| format!("File:Walter {}.jpg", n)).collect();
    titles.push("File:Walter Rueth.jpg".to_string());
    let step = wdfist.run(answer("search", titles));
    assert!(matches!(step, Step::Ask(Request::ToolQuery { .. })));
    assert!(file_count(&wdfist, "Q66711783") > 5);
    assert!(has_file(&wdfist, "Q66711783", "Walter_Rueth.jpg"));
}

#[test]
fn a_search_is_for_the_items_of_a_list() {
    let entry = |name: &str, namespace_id: i64| {
        PageListEntry::new(Title::new(name, namespace_id))
    };
    let entries = vec![entry("Q2", 0), entry("P18", 120), entry("Q10", 0), entry("Q2", 1)];
    let params = || FormParameters::new(&pairs(&[("a", "1")]));
    let list = PageList::new_from_vec("wikidatawiki", entries);
    let wdfist = WDfist::new(params(), &Some(list)).unwrap();
    assert_eq!(wdfist.items, strings(&["Q10", "Q2"]));
    assert!(wdfist.item2files.is_empty());
    assert!(wdfist.bool_param("a"));
    assert!(WDfist::new(params(), &Some(PageList::new_from_wiki("enwiki"))).is_none());
    assert!(WDfist::new(params(), &None).unwrap().items.is_empty());
}

#[test]
fn parameters_are_set_if_they_say_something() {
    let wdfist = get_wdfist(vec![("a", "1"), ("b", " \t"), ("c", ""), ("d", ""), ("d", " x ")], vec![]);
    assert!(wdfist.bool_param("a"));
    assert!(!wdfist.bool_param("b"));
    assert!(!wdfist.bool_param("c"));
    assert!(wdfist.bool_param("d"));
    assert!(!wdfist.bool_param("e"));
}

#[test]
fn names_without_a_type_are_not_valid() {
    let mut wdfist = get_wdfist(vec![], vec![]);
    for name in ["", "foobar", ".jpg", "foobar.", "foo\nbar.jpg", "."] {
        assert!(!wdfist.is_valid_filename(&name.to_string()), "{}", name);
    }
    for name in ["a.b", "foo.bar.JPG", "foo.pdf.jpg", "..x", "ä.TIFF", "foobar.jpg\n"] {
        assert!(wdfist.is_valid_filename(&name.to_string()), "{}", name);
    }
    assert!(!wdfist.is_valid_filename(&"foo.jpg.pDF".to_string()));
    assert!(!wdfist.is_valid_filename(&"600px_foo.PNG".to_string()));
    wdfist.wdf_only_jpeg = true;
    assert!(wdfist.is_valid_filename(&"foo.JPEG".to_string()));
    assert!(wdfist.is_valid_filename(&"foo.Jpg".to_string()));
    assert!(!wdfist.is_valid_filename(&"foo.png".to_string()));
    assert!(!wdfist.is_valid_filename(&"foobar.jpg\n".to_string()));
}

#[test]
fn files_of_a_page_are_ignored() {
    let mut wdfist = get_wdfist(vec![], vec![]);
    wdfist.seed_ignore_files_from_wiki_page("* Foo bar.jpg \n**Baz.png\n\nText\n* x.svg\n *  *a.gif");
    assert!(wdfist.files2ignore.contains("Foo_bar.jpg"));
    assert!(wdfist.files2ignore.contains("Baz.png"));
    assert!(!wdfist.files2ignore.contains("Text"));
    assert!(!wdfist.files2ignore.contains("x.svg"));
    assert!(!wdfist.files2ignore.contains("a.gif"));
    assert!(!wdfist.is_valid_filename(&"Foo_bar.jpg".to_string()));
    assert!(wdfist.is_valid_filename(&"Foo bar.jpg".to_string()));
    wdfist.seed_ignore_files_from_ignore_database(&vec![
        Some(" Other file.jpg".to_string()),
        None,
        Some("Baz.png".to_string()),
    ]);
    assert!(wdfist.files2ignore.contains("Other_file.jpg"));
    assert!(!wdfist.is_valid_filename(&"Baz.png".to_string()));
}

#[test]
fn only_valid_files_are_added() {
    let mut wdfist = get_wdfist(vec![], vec![]);
    let q = "Q1".to_string();
    wdfist.add_file_to_item(&q, &"a.jpg".to_string());
    wdfist.add_file_to_item(&q, &"a.pdf".to_string());
    wdfist.add_file_to_item(&"Q2".to_string(), &"a.pdf".to_string());
    wdfist.add_files(&pairs(&[("Q1", "a.jpg"), ("Q1", "b.jpg"), ("Q2", "c.gif")]));
    assert_eq!(rows(&wdfist), vec![row("Q1", &[("a.jpg", 2), ("b.jpg", 1)])]);
    assert_eq!(wdfist.normalize_filename(&" a b ".to_string()), "a_b");
}

#[test]
fn the_order_of_findings_does_not_matter() {
    let found = [("Q1", "a.jpg"), ("Q2", "a.jpg"), ("Q1", "b.jpg"), ("Q1", "a.jpg"), ("Q3", "x.pdf")];
    let mut forth = get_wdfist(vec![], vec![]);
    forth.add_files(&pairs(&found));
    let mut back = get_wdfist(vec![], vec![]);
    let mut reversed = found;
    reversed.reverse();
    back.add_files(&pairs(&reversed));
    assert_eq!(rows(&forth), rows(&back));
    assert_eq!(rows(&forth)[0], row("Q1", &[("a.jpg", 2), ("b.jpg", 1)]));
}

#[test]
fn ignored_files_are_taken_from_their_items() {
    let mut wdfist = get_wdfist(vec![], vec!["Q1"]);
    set_item2files(&mut wdfist, "Q3182779", vec![("Wisden_1878.jpg", 0)]);
    set_item2files(
        &mut wdfist,
        "Q6264259",
        vec![("Roedean.JPG", 0), ("Designated_survivor.jpg", 0)],
    );
    let some = |q: &str, file: &str| Some((q.to_string(), file.to_string()));
    let batches = vec![
        Ok(vec![some("Q3182779", "Wisden 1878.jpg"), None, some("Q1", "x.jpg")]),
        Ok(vec![some("Q6264259", " Roedean.JPG"), some("Q3182779", "Roedean.JPG")]),
    ];
    assert_eq!(wdfist.filter_files_from_ignore_database(&batches), Ok(()));
    assert_eq!(rows(&wdfist), vec![row("Q6264259", &[("Designated_survivor.jpg", 0)])]);
}

#[test]
fn a_refused_batch_is_told_last() {
    let mut wdfist = get_wdfist(vec![], vec!["Q1"]);
    set_item2files(&mut wdfist, "Q1", vec![("a.jpg", 1), ("b.jpg", 1)]);
    let batches = vec![
        Err("first".to_string()),
        Ok(vec![Some(("Q1".to_string(), "a.jpg".to_string()))]),
        Err("second".to_string()),
    ];
    assert_eq!(
        wdfist.filter_files_from_ignore_database(&batches),
        Err("wdfist::filter_files_from_ignore_database: second".to_string())
    );
    assert_eq!(rows(&wdfist), vec![row("Q1", &[("b.jpg", 1)])]);
    // Without items there is nothing to filter.
    wdfist.items = vec![];
    assert_eq!(wdfist.filter_files_from_ignore_database(&batches), Ok(()));
}

#[test]
fn without_parameters_all_files_stay() {
    let mut wdfist = get_wdfist(vec![], vec![]);
    for q in ["Q1", "Q2", "Q3", "Q4", "Q5"] {
        set_item2files(&mut wdfist, q, vec![("a.jpg", 1)]);
    }
    set_item2files(&mut wdfist, "Q6", vec![]);
    assert!(wdfist.files_to_check().is_none());
    wdfist.filter_files_five_or_is_used(strings(&["a.jpg"]));
    assert_eq!(rows(&wdfist).len(), 5);
}

#[test]
fn four_items_may_share_a_file() {
    let mut wdfist = get_wdfist(vec![("wdf_max_five_results", "1")], vec![]);
    for q in ["Q1", "Q2", "Q3", "Q4"] {
        set_item2files(&mut wdfist, q, vec![("a.jpg", 9), ("b.jpg", 1)]);
    }
    set_item2files(&mut wdfist, "Q5", vec![("b.jpg", 1)]);
    wdfist.filter_files_five_or_is_used(vec![]);
    assert_eq!(rows(&wdfist).len(), 4);
    assert_eq!(rows(&wdfist)[0], row("Q1", &[("a.jpg", 9)]));
    let before = rows(&wdfist);
    wdfist.filter_files_five_or_is_used(vec![]);
    assert_eq!(rows(&wdfist), before);
}

#[test]
fn items_without_files_go() {
    let mut wdfist = get_wdfist(vec![("wdf_only_files_not_on_wd", "1")], vec![]);
    set_item2files(&mut wdfist, "Q1", vec![]);
    assert!(wdfist.files_to_check().is_none());
    // Where no item has a file, the filter leaves everything as it is.
    wdfist.filter_files_five_or_is_used(vec![]);
    assert_eq!(rows(&wdfist), vec![row("Q1", &[])]);
    wdfist.remove_items_with_no_file_candidates();
    assert!(wdfist.item2files.is_empty());
}

#[test]
fn items_that_qualify_replace_the_others() {
    let mut wdfist = get_wdfist(vec![], vec!["Q1", "Q2"]);
    wdfist.filter_items(strings(&["Q2"]));
    assert_eq!(wdfist.items, strings(&["Q2"]));
}

#[test]
fn allowing_svg_files_adds_nothing_else() {
    let found = pairs(&[
        ("Q1", "a.jpg"),
        ("Q1", "b.SVG"),
        ("Q2", "b.svg"),
        ("Q1", "a.jpg"),
        ("Q2", "c.pdf"),
    ]);
    let mut without = get_wdfist(vec![], vec![]);
    without.add_files(&found);
    let mut with = get_wdfist(vec![], vec![]);
    with.wdf_allow_svg = true;
    with.add_files(&found);
    assert_eq!(rows(&without), vec![row("Q1", &[("a.jpg", 2)])]);
    assert_eq!(
        rows(&with),
        vec![row("Q1", &[("a.jpg", 2), ("b.SVG", 1)]), row("Q2", &[("b.svg", 1)])]
    );
}

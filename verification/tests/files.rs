use wdfist::answer::{ask_nearby, ask_search, can_read, found_files, Answer};
use wdfist::files::ItemFiles;
use wdfist::string_map::StringMap;

fn pairs(texts: &[(&str, &str)]) -> Vec<(String, String)> {
    texts.iter().map(|(a, b)| (a.to_string(), b.to_string())).collect()
}

fn object(members: Vec<(&str, Answer)>) -> Answer {
    Answer::Object(members.into_iter().map(|(name, value)| (name.to_string(), value)).collect())
}

fn results(list: &str, titles: Vec<Answer>) -> Answer {
    let titles = titles.into_iter().map(|title| object(vec![("title", title)])).collect();
    object(vec![("query", object(vec![(list, Answer::Array(titles))]))])
}

fn text(s: &str) -> Answer {
    Answer::Text(s.to_string())
}

fn rows(files: &ItemFiles) -> Vec<(String, Vec<(String, usize)>)> {
    let mut rows = files.rows();
    for row in rows.iter_mut() {
        row.1.sort();
    }
    rows.sort();
    rows
}

fn row(item: &str, files: &[(&str, usize)]) -> (String, Vec<(String, usize)>) {
    (item.to_string(), files.iter().map(|(file, count)| (file.to_string(), *count)).collect())
}

#[test]
fn a_map_holds_what_was_put_in() {
    let mut map: StringMap<usize> = StringMap::new();
    assert!(map.is_empty());
    for i in 0..20usize {
        map.insert(format!("k{}", i), i);
    }
    map.insert("k7".to_string(), 70);
    assert_eq!(map.len(), 20);
    assert_eq!(map.get("k7"), Some(&70));
    assert_eq!(map.get("k20"), None);
    for i in 0..10usize {
        let old = if i == 7 { 70 } else { i };
        assert_eq!(map.remove(&format!("k{}", i)), Some(old));
    }
    assert_eq!(map.remove("k0"), None);
    assert_eq!(map.len(), 10);
    assert!(!map.contains_key("k9"));
    for i in 10..20usize {
        assert_eq!(map.get(&format!("k{}", i)), Some(&i));
    }
    let mut keys = map.keys();
    keys.sort();
    assert_eq!(keys[0], "k10");
    let mut entries = map.into_entries();
    entries.sort();
    assert_eq!(entries.len(), 10);
    assert_eq!(entries[9], ("k19".to_string(), 19));
}

#[test]
fn files_are_counted_for_items() {
    let mut files = ItemFiles::new();
    assert!(files.is_empty());
    let (q1, q2) = ("Q1".to_string(), "Q2".to_string());
    let (x, y) = ("x.jpg".to_string(), "y.jpg".to_string());
    files.add(&q1, &x);
    files.add(&q1, &x);
    files.add(&q1, &y);
    files.add(&q2, &x);
    assert_eq!(
        rows(&files),
        vec![row("Q1", &[("x.jpg", 2), ("y.jpg", 1)]), row("Q2", &[("x.jpg", 1)])]
    );
    let counts = files.file_counts();
    assert_eq!(counts.get("x.jpg"), Some(&2));
    assert_eq!(counts.get("y.jpg"), Some(&1));
    assert_eq!(counts.len(), 2);
    files.remove_file(&q2, &x);
    files.remove_file(&q1, &"z.jpg".to_string());
    files.remove_file(&"Q3".to_string(), &x);
    assert_eq!(files.items(), vec![q1.clone()]);
    files.remove_files(&vec![x.clone(), y.clone()]);
    assert_eq!(rows(&files), vec![row("Q1", &[])]);
    files.drop_empty();
    assert!(files.is_empty());
    assert_eq!(files.get("Q1").map(|f| f.len()), None);
}

#[test]
fn an_unknown_file_takes_an_item_without_files_out() {
    let mut files = ItemFiles::new();
    files.insert("Q1".to_string(), StringMap::new());
    files.remove_file(&"Q1".to_string(), &"x.jpg".to_string());
    assert!(files.is_empty());
}

#[test]
fn members_of_answers() {
    let answer = object(vec![("a", text("x")), ("b", Answer::Other), ("a", text("y"))]);
    assert!(matches!(answer.get("a"), Answer::Text(t) if t == "x"));
    assert!(matches!(answer.get("c"), Answer::Other));
    assert!(matches!(answer.get("a").get("a"), Answer::Other));
    assert!(matches!(Answer::Array(vec![]).get("a"), Answer::Other));
}

#[test]
fn answers_name_files() {
    let q = "Q350".to_string();
    let answer = results(
        "geosearch",
        vec![text("File:A b.jpg"), Answer::Other, text("Datei: C.png "), text("File:")],
    );
    assert!(can_read(&answer, "geosearch"));
    assert_eq!(
        found_files(&q, &answer, "geosearch"),
        pairs(&[("Q350", "A_b.jpg"), ("Q350", ":_C.png"), ("Q350", "")])
    );
    assert_eq!(found_files(&q, &answer, "search"), pairs(&[]));
    assert_eq!(found_files(&q, &Answer::Other, "search"), pairs(&[]));
    let no_list = object(vec![("query", object(vec![("search", text("File:A.jpg"))]))]);
    assert_eq!(found_files(&q, &no_list, "search"), pairs(&[]));
}

#[test]
fn titles_that_are_too_short_cannot_be_read() {
    assert!(!can_read(&results("search", vec![text("File:A.jpg"), text("abc")]), "search"));
    assert!(!can_read(&results("search", vec![text("Dateä")]), "search"));
    assert!(can_read(&results("search", vec![text("abc")]), "geosearch"));
    assert!(can_read(&results("search", vec![Answer::Other]), "search"));
}

#[test]
fn parameters_for_the_api_are_exact() {
    assert_eq!(
        ask_nearby("52.2", "-0.119"),
        pairs(&[
            ("action", "query"),
            ("list", "geosearch"),
            ("gscoord", "52.2|-0.119"),
            ("gsradius", "100"),
            ("gslimit", "50"),
            ("gsnamespace", "6"),
        ])
    );
    assert_eq!(
        ask_search("Walter Rüth"),
        pairs(&[
            ("action", "query"),
            ("list", "search"),
            ("srnamespace", "6"),
            ("srsearch", "Walter Rüth"),
        ])
    );
}

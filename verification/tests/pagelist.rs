use wdfist::pagelist::{EntrySet, PageList, PageListEntry};
use wdfist::title::Title;

fn entry(name: &str, namespace_id: i64) -> PageListEntry {
    PageListEntry::new(Title::new(name, namespace_id))
}

fn redirect(name: &str, namespace_id: i64) -> PageListEntry {
    let mut e = entry(name, namespace_id);
    e.is_redirect = Some(true);
    e
}

fn names(list: &PageList) -> Vec<String> {
    let mut names: Vec<String> = list
        .entries
        .clone()
        .into_vec()
        .iter()
        .map(|e| format!("{}:{}", e.title().namespace_id(), e.title().pretty()))
        .collect();
    names.sort();
    names
}

#[test]
fn titles_have_spaces() {
    let title = Title::new("Foo_bar ", 4);
    assert_eq!(title.pretty(), "Foo bar");
    assert_eq!(title.namespace_id(), 4);
    assert_eq!(Title::new("_a__b_", 0).pretty(), "a  b");
    assert!(title.same_as(&Title::new("Foo bar", 4)));
    assert!(!title.same_as(&Title::new("Foo bar", 0)));
    assert!(!title.same_as(&Title::new("Foo Bar", 4)));
    assert!(title.clone().same_as(&title));
}

#[test]
fn titles_are_what_the_wiki_crate_makes_of_them() {
    for name in ["Foo_bar", " a_b ", "Q42", "", "__", "ä_ö"] {
        for namespace_id in [-1, 0, 6] {
            let title = mediawiki::title::Title::new(name, namespace_id);
            let ours = Title::new(name, namespace_id);
            assert_eq!(ours.pretty(), title.pretty());
            assert_eq!(ours.namespace_id(), title.namespace_id());
        }
    }
}

#[test]
fn titles_are_filed_under_different_keys() {
    assert_eq!(Title::new("A", 0).key(), "0:A");
    assert_eq!(Title::new("A", -1).key(), "-1:A");
    assert_eq!(Title::new("A", i64::MIN).key(), "-9223372036854775808:A");
    assert_ne!(Title::new("2:A", 1).key(), Title::new("A", 12).key());
}

#[test]
fn a_new_entry_knows_its_title_only() {
    let e = entry("Q1", 0);
    assert_eq!(e.does_exist, None);
    assert_eq!(e.is_redirect, None);
    assert_eq!(e.wikidata_item, None);
    assert_eq!(e.title().pretty(), "Q1");
}

#[test]
fn entries_are_equal_by_title() {
    let mut a = entry("Q1", 0);
    a.wikidata_item = Some("Q1".to_string());
    assert!(a == entry("Q1", 0));
    assert!(a != entry("Q1", 1));
    assert!(a != entry("Q2", 0));
    assert_eq!(a.clone().wikidata_item, Some("Q1".to_string()));
}

#[test]
fn lists_take_each_page_once() {
    let mut list = PageList::new_from_wiki("enwiki");
    assert_eq!(list.wiki, Some("enwiki".to_string()));
    assert_eq!(list.entries.len(), 0);
    list.add_entry(redirect("A_b", 0));
    list.add_entry(entry("A b", 0));
    list.set_entries_from_vec(vec![entry("A b", 1), redirect("C", 0), entry("C", 0)]);
    assert_eq!(names(&list), vec!["0:A b", "0:C", "1:A b"]);
    assert_eq!(list.entries.get(&Title::new("A b", 0)).unwrap().is_redirect, Some(true));
    assert_eq!(list.entries.get(&Title::new("C", 0)).unwrap().is_redirect, Some(true));
    assert!(list.entries.contains(&Title::new("A_b", 1)));
    assert!(!list.entries.contains(&Title::new("A_b", 2)));
    assert!(list.entries.get(&Title::new("A_b", 2)).is_none());
}

#[test]
fn a_list_from_entries_takes_the_first() {
    let list = PageList::new_from_vec("dewiki", vec![redirect("A", 0), entry("A", 0)]);
    assert_eq!(list.wiki, Some("dewiki".to_string()));
    assert_eq!(list.entries.len(), 1);
    assert_eq!(list.entries.get(&Title::new("A", 0)).unwrap().is_redirect, Some(true));
}

#[test]
fn main_names_are_those_of_the_main_namespace() {
    let list = PageList::new_from_vec("dewiki", vec![entry("A_b", 0), entry("C", 1)]);
    assert_eq!(list.entries.main_names(), vec!["A b".to_string()]);
    assert_eq!(EntrySet::new().main_names(), Vec::<String>::new());
}

#[test]
fn lists_are_merged() {
    let a = PageList::new_from_vec("enwiki", vec![entry("A", 0), entry("B", 0), entry("B", 1)]);
    let b = PageList::new_from_vec("enwiki", vec![entry("B", 0), entry("C", 0)]);
    let mut union = a.clone();
    assert_eq!(union.union(Some(b.clone())), Ok(()));
    assert_eq!(names(&union), vec!["0:A", "0:B", "0:C", "1:B"]);
    let mut intersection = a.clone();
    assert_eq!(intersection.intersection(Some(b.clone())), Ok(()));
    assert_eq!(names(&intersection), vec!["0:B"]);
    let mut difference = a.clone();
    assert_eq!(difference.difference(Some(b.clone())), Ok(()));
    assert_eq!(names(&difference), vec!["0:A", "1:B"]);
    // The two parts make the list again.
    assert_eq!(difference.union(Some(intersection)), Ok(()));
    assert!(difference == a);
}

#[test]
fn lists_of_different_wikis_are_not_merged() {
    let mut a = PageList::new_from_vec("enwiki", vec![entry("A", 0)]);
    let b = PageList::new_from_vec("dewiki", vec![entry("B", 0)]);
    let message = "PageList::check_before_merging wikis are not identical: enwiki/dewiki";
    assert_eq!(a.union(Some(b.clone())), Err(message.to_string()));
    assert_eq!(a.intersection(Some(b.clone())), Err(message.to_string()));
    assert_eq!(a.difference(Some(b)), Err(message.to_string()));
    assert_eq!(names(&a), vec!["0:A"]);
}

#[test]
fn lists_without_a_wiki_are_not_merged() {
    let mut a = PageList::new_from_vec("enwiki", vec![entry("A", 0)]);
    let mut b = a.clone();
    b.wiki = None;
    assert_eq!(
        a.union(Some(b.clone())),
        Err("PageList::check_before_merging pagelist.wiki is not set".to_string())
    );
    assert_eq!(
        b.difference(Some(a.clone())),
        Err("PageList::check_before_merging self.wiki is not set".to_string())
    );
    assert_eq!(
        b.clone().intersection(Some(b)),
        Err("PageList::check_before_merging self.wiki is not set".to_string())
    );
    assert_eq!(
        a.union(None),
        Err("PageList::check_before_merging pagelist is None".to_string())
    );
}

#[test]
fn lists_are_equal_by_wiki_and_pages() {
    let a = PageList::new_from_vec("enwiki", vec![entry("A", 0), entry("B", 0)]);
    let same = PageList::new_from_vec("enwiki", vec![redirect("B", 0), entry("A", 0)]);
    let fewer = PageList::new_from_vec("enwiki", vec![entry("A", 0)]);
    let mut elsewhere = a.clone();
    elsewhere.wiki = Some("dewiki".to_string());
    assert!(a == same);
    assert!(a != fewer);
    assert!(fewer != a);
    assert!(a != elsewhere);
}

#[test]
fn wikidata_is_known_by_its_name() {
    assert!(PageList::new_from_wiki("wikidatawiki").is_wikidata());
    assert!(!PageList::new_from_wiki("enwiki").is_wikidata());
    let mut list = PageList::new_from_wiki("wikidatawiki");
    list.wiki = None;
    assert!(!list.is_wikidata());
}

#[test]
fn what_is_known_of_a_page_can_be_noted() {
    let mut e = entry("Q1", 0);
    e.set_does_exist(Some(true));
    e.set_is_redirect(Some(false));
    e.set_wikidata_item(Some("Q5".to_string()));
    assert_eq!(e.does_exist(), Some(true));
    assert_eq!(e.is_redirect(), Some(false));
    assert_eq!(e.wikidata_item(), Some(&"Q5".to_string()));
    assert_eq!(e.does_exist, Some(true));
    assert_eq!(e.title().pretty(), "Q1");
    e.set_wikidata_item(None);
    assert_eq!(e.wikidata_item(), None);
    assert_eq!(e.is_redirect(), Some(false));
}

#[test]
fn entries_about_one_page_have_one_hash() {
    let mut set = std::collections::HashSet::new();
    assert!(set.insert(entry("A_b", 0)));
    assert!(!set.insert(redirect("A b", 0)));
    assert!(set.insert(entry("A b", 1)));
    assert!(set.insert(entry("B", 0)));
    assert_eq!(set.len(), 3);
    assert!(set.contains(&redirect("B", 0)));
}

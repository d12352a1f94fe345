use wdfist::links::{get_language_links, keep_those_in, link_files, map_of};
use wdfist::query::{chunks, ignore_query, Query};

fn strings(texts: &[&str]) -> Vec<String> {
    texts.iter().map(|s| s.to_string()).collect()
}

fn pairs(texts: &[(&str, &str)]) -> Vec<(String, String)> {
    texts.iter().map(|(a, b)| (a.to_string(), b.to_string())).collect()
}

fn text(query: Query) -> String {
    query.batch(("?,?".to_string(), strings(&["Q1", "Q2"]))).0
}

#[test]
fn query_texts_are_exact() {
    assert_eq!(
        text(Query::Items { without_p18: false }),
        "SELECT page_title FROM page WHERE page_namespace=0 AND page_is_redirect=0 AND page_title IN (?,?) AND NOT EXISTS (SELECT * FROM pagelinks WHERE pl_from=page_id AND pl_namespace=0 AND pl_title IN ('Q13406463','Q4167410'))"
    );
    assert_eq!(
        text(Query::Items { without_p18: true }),
        "SELECT page_title FROM page WHERE page_namespace=0 AND page_is_redirect=0 AND page_title IN (?,?) AND NOT EXISTS (SELECT * FROM pagelinks WHERE pl_from=page_id AND pl_namespace=120 AND pl_title='P18') AND NOT EXISTS (SELECT * FROM pagelinks WHERE pl_from=page_id AND pl_namespace=0 AND pl_title IN ('Q13406463','Q4167410'))"
    );
    assert_eq!(
        text(Query::LanguageLinks),
        "SELECT ips_item_id,ips_site_id,ips_site_page FROM wb_items_per_site WHERE ips_item_id IN (?,?)"
    );
    assert_eq!(
        text(Query::ImageLinks { wiki: "dewiki".to_string() }),
        "SELECT DISTINCT gil_page_title AS page,gil_to AS image FROM page,globalimagelinks WHERE gil_wiki='dewiki' AND gil_page_title IN (?,?) AND gil_page_namespace_id=0 AND page_namespace=6 and page_title=gil_to AND page_is_redirect=0 AND NOT EXISTS (SELECT * FROM categorylinks where page_id=cl_from and cl_to='Crop_for_Wikidata')"
    );
    assert_eq!(
        text(Query::PageImages),
        "SELECT page_title,pp_value FROM page,page_props WHERE page_id=pp_page AND page_namespace=0 AND pp_propname='page_image_free' AND page_title IN (?,?)"
    );
    assert_eq!(
        text(Query::Coordinates),
        "SELECT page_title,gt_lat,gt_lon FROM geo_tags,page WHERE page_namespace=0 AND page_id=gt_page_id AND gt_globe='earth' AND gt_primary=1 AND page_title IN (?,?)"
    );
    assert_eq!(
        text(Query::Labels),
        "SELECT term_full_entity_id,term_text FROM wb_terms WHERE term_entity_type='item' AND term_language='en' AND term_type='label' AND term_full_entity_id IN (?,?)"
    );
    assert_eq!(
        text(Query::IgnoredFiles),
        "SELECT concat('Q',q),CONVERT(`file` USING utf8) FROM s51218__wdfist_p.ignore_files WHERE q IN (?,?)"
    );
    assert_eq!(
        text(Query::UsedFiles),
        "SELECT DISTINCT il_to FROM imagelinks WHERE il_from_namespace=0 AND il_to IN (?,?)"
    );
    assert_eq!(
        ignore_query(),
        "SELECT CONVERT(`file` USING utf8) FROM s51218__wdfist_p.ignore_files GROUP BY file HAVING count(*)>=3"
    );
}

#[test]
fn some_queries_know_items_by_number() {
    let quoted = ("?,?".to_string(), strings(&["Q1", "Q22"]));
    assert_eq!(Query::LanguageLinks.batch(quoted.clone()).1, strings(&["1", "22"]));
    assert_eq!(Query::Labels.batch(quoted.clone()).1, strings(&["Q1", "Q22"]));
    assert_eq!(Query::IgnoredFiles.batch(quoted).1, strings(&["Q1", "Q22"]));
    let keys = strings(&["Q1", "Q22", "Q3"]);
    assert_eq!(
        Query::IgnoredFiles.chunks(&keys, 2),
        vec![strings(&["1", "22"]), strings(&["3"])]
    );
    assert_eq!(
        Query::LanguageLinks.chunks(&keys, 2),
        vec![strings(&["Q1", "Q22"]), strings(&["Q3"])]
    );
}

#[test]
fn keys_are_cut_into_chunks() {
    let keys = strings(&["a", "b", "c", "d"]);
    assert_eq!(chunks(&keys, 1).len(), 4);
    assert_eq!(chunks(&keys, 2), vec![strings(&["a", "b"]), strings(&["c", "d"])]);
    assert_eq!(chunks(&keys, 3), vec![strings(&["a", "b", "c"]), strings(&["d"])]);
    assert_eq!(chunks(&keys, 4), vec![keys.clone()]);
    assert_eq!(chunks(&keys, usize::MAX), vec![keys.clone()]);
    assert_eq!(chunks(&vec![], 5), Vec::<Vec<String>>::new());
    assert_eq!(chunks(&keys, 3).concat(), keys);
}

#[test]
fn language_links_are_sorted_by_wiki() {
    let rows = vec![
        (1481, "dewiki".to_string(), "Felsberg (Hessen)".to_string()),
        (42, "wikidatawiki".to_string(), "Q42".to_string()),
        (42, "enwiki".to_string(), "Douglas Adams".to_string()),
        (350, "dewiki".to_string(), "Cambridge".to_string()),
    ];
    let groups = get_language_links(&rows);
    assert_eq!(groups.len(), 2);
    assert_eq!(
        groups.get("dewiki"),
        Some(&pairs(&[("Felsberg_(Hessen)", "Q1481"), ("Cambridge", "Q350")]))
    );
    assert_eq!(groups.get("enwiki"), Some(&pairs(&[("Douglas_Adams", "Q42")])));
    assert_eq!(groups.get("wikidatawiki"), None);
}

#[test]
fn files_on_pages_belong_to_items() {
    let page2q = map_of(&pairs(&[("A", "Q1"), ("B", "Q2"), ("A", "Q3")]));
    assert_eq!(page2q.get("A"), Some(&"Q3".to_string()));
    let page_file = pairs(&[("A", "x.jpg"), ("C", "y.jpg"), ("B", "x.jpg")]);
    assert_eq!(link_files(&page_file, &page2q), pairs(&[("Q3", "x.jpg"), ("Q2", "x.jpg")]));
}

#[test]
fn page_images_are_kept_if_they_were_found() {
    let found = pairs(&[("A", "x.jpg"), ("A", "y.jpg")]);
    let rows = pairs(&[("A", "y.jpg"), ("B", "x.jpg"), ("A", "z.jpg"), ("A", "y.jpg")]);
    assert_eq!(keep_those_in(&rows, &found), pairs(&[("A", "y.jpg"), ("A", "y.jpg")]));
}

//! The database queries: their texts, and how they are cut into batches.
use crate::text::{cut_bytes, cuttable, decimal, decimal_text, texts, without_bytes};
use vstd::prelude::*;
use vstd::string::*;

verus! {

broadcast use {vstd::seq_lib::group_seq_properties, crate::text::lemma_texts_push};

/// How many times a file must be in the ignore database before it is ignored
/// for all items.
pub const MIN_IGNORE_DB_FILE_COUNT: usize = 3;

/// The text of a query and the values for its placeholders.
pub type SQLtuple = (String, Vec<String>);

/// A query that is asked in batches: for each batch of keys, the placeholders
/// that stand for them go into the text.
pub enum Query {
    /// Which items are pages that are neither redirects nor lists or
    /// disambiguations, and, if asked for, without an image.
    Items { without_p18: bool },
    /// The pages about the items in the wikis.
    LanguageLinks,
    /// The files on pages of the wiki.
    ImageLinks { wiki: String },
    /// The page images of pages.
    PageImages,
    /// The coordinates of the items.
    Coordinates,
    /// The English labels of the items.
    Labels,
    /// The files to ignore for the items.
    IgnoredFiles,
    /// The files that items use.
    UsedFiles,
}

/// What is asked, without the strings that hold it.
pub enum QueryView {
    Items { without_p18: bool },
    LanguageLinks,
    ImageLinks { wiki: Seq<char> },
    PageImages,
    Coordinates,
    Labels,
    IgnoredFiles,
    UsedFiles,
}

impl View for Query {
    type V = QueryView;

    open spec fn view(&self) -> QueryView {
        match self {
            Query::Items { without_p18 } => QueryView::Items { without_p18: *without_p18 },
            Query::LanguageLinks => QueryView::LanguageLinks,
            Query::ImageLinks { wiki } => QueryView::ImageLinks { wiki: wiki@ },
            Query::PageImages => QueryView::PageImages,
            Query::Coordinates => QueryView::Coordinates,
            Query::Labels => QueryView::Labels,
            Query::IgnoredFiles => QueryView::IgnoredFiles,
            Query::UsedFiles => QueryView::UsedFiles,
        }
    }
}

/// The text of a query, with the placeholders of one batch.
pub open spec fn query_text(query: QueryView, placeholders: Seq<char>) -> Seq<char> {
    match query {
        QueryView::Items { without_p18 } => {
            "SELECT page_title FROM page WHERE page_namespace=0 AND page_is_redirect=0 AND page_title IN ("@
                + placeholders + ")"@ + (if without_p18 {
                " AND NOT EXISTS (SELECT * FROM pagelinks WHERE pl_from=page_id AND pl_namespace=120 AND pl_title='P18')"@
            } else {
                Seq::empty()
            })
                + " AND NOT EXISTS (SELECT * FROM pagelinks WHERE pl_from=page_id AND pl_namespace=0 AND pl_title IN ('Q13406463','Q4167410'))"@
        },
        QueryView::LanguageLinks =>
            "SELECT ips_item_id,ips_site_id,ips_site_page FROM wb_items_per_site WHERE ips_item_id IN ("@
            + placeholders + ")"@,
        QueryView::ImageLinks { wiki } =>
            "SELECT DISTINCT gil_page_title AS page,gil_to AS image FROM page,globalimagelinks WHERE gil_wiki='"@
            + wiki + "' AND gil_page_title IN ("@ + placeholders + ")"@
            + " AND gil_page_namespace_id=0 AND page_namespace=6 and page_title=gil_to AND page_is_redirect=0"@
            + " AND NOT EXISTS (SELECT * FROM categorylinks where page_id=cl_from and cl_to='Crop_for_Wikidata')"@,
        QueryView::PageImages =>
            "SELECT page_title,pp_value FROM page,page_props WHERE page_id=pp_page AND page_namespace=0 AND pp_propname='page_image_free' AND page_title IN ("@
            + placeholders + ")"@,
        QueryView::Coordinates =>
            "SELECT page_title,gt_lat,gt_lon FROM geo_tags,page WHERE page_namespace=0 AND page_id=gt_page_id AND gt_globe='earth' AND gt_primary=1 AND page_title IN ("@
            + placeholders + ")"@,
        QueryView::Labels =>
            "SELECT term_full_entity_id,term_text FROM wb_terms WHERE term_entity_type='item' AND term_language='en' AND term_type='label' AND term_full_entity_id IN ("@
            + placeholders + ")"@,
        QueryView::IgnoredFiles =>
            "SELECT concat('Q',q),CONVERT(`file` USING utf8) FROM s51218__wdfist_p.ignore_files WHERE q IN ("@
            + placeholders + ")"@,
        QueryView::UsedFiles =>
            "SELECT DISTINCT il_to FROM imagelinks WHERE il_from_namespace=0 AND il_to IN ("@
            + placeholders + ")"@,
    }
}

/// The text of the query for the files to ignore for all items.
pub open spec fn ignore_query_text() -> Seq<char> {
    "SELECT CONVERT(`file` USING utf8) FROM s51218__wdfist_p.ignore_files GROUP BY file HAVING count(*)>="@
        + decimal(MIN_IGNORE_DB_FILE_COUNT as nat)
}

/// The texts without their first byte each: item ids without the `Q`.
pub open spec fn without_first_bytes(s: Seq<Seq<char>>) -> Seq<Seq<char>> {
    s.map_values(|t: Seq<char>| without_bytes(t, 1))
}

/// Whether each text can be cut after its first byte.
pub open spec fn all_cuttable(s: Seq<Seq<char>>) -> bool {
    forall|i: int| 0 <= i < s.len() ==> cuttable(#[trigger] s[i], 1)
}

/// The keys that a query is asked with: the one for files to ignore knows the
/// items by their numbers, without the leading letter.
pub open spec fn asked_keys(query: QueryView, keys: Seq<Seq<char>>) -> Seq<Seq<char>> {
    match query {
        QueryView::IgnoredFiles => without_first_bytes(keys),
        _ => keys,
    }
}

/// The values that a query is asked with: the one for language links knows the
/// items by their numbers, without the leading letter.
pub open spec fn asked_values(query: QueryView, values: Seq<Seq<char>>) -> Seq<Seq<char>> {
    match query {
        QueryView::LanguageLinks => without_first_bytes(values),
        _ => values,
    }
}

/// A sequence in chunks of `size`, the last of which may be shorter.
pub open spec fn chunked(s: Seq<Seq<char>>, size: nat) -> Seq<Seq<Seq<char>>>
    decreases s.len(),
{
    if s.len() == 0 || size == 0 {
        Seq::empty()
    } else if s.len() <= size {
        seq![s]
    } else {
        seq![s.take(size as int)] + chunked(s.skip(size as int), size)
    }
}

/// The texts of rows of strings.
pub open spec fn all_texts(rows: Seq<Vec<String>>) -> Seq<Seq<Seq<char>>> {
    rows.map_values(|row: Vec<String>| texts(row@))
}

fn cut_first_bytes(strings: &Vec<String>) -> (res: Vec<String>)
    requires
        all_cuttable(texts(strings@)),
    ensures
        texts(res@) == without_first_bytes(texts(strings@)),
{
    let mut res: Vec<String> = Vec::new();
    let mut i: usize = 0;
    while i < strings.len()
        invariant
            i <= strings@.len(),
            all_cuttable(texts(strings@)),
            texts(res@) == without_first_bytes(texts(strings@).take(i as int)),
        decreases strings@.len() - i,
    {
        proof {
            assert(texts(strings@)[i as int] == strings@[i as int]@);
            assert(texts(strings@).take(i + 1) =~= texts(strings@).take(i as int).push(
                strings@[i as int]@,
            ));
        }
        res.push(cut_bytes(strings[i].as_str(), 1));
        proof {
            assert(texts(res@) =~= without_first_bytes(texts(strings@).take(i + 1)));
        }
        i += 1;
    }
    proof {
        assert(texts(strings@).take(i as int) =~= texts(strings@));
    }
    res
}

/// The strings in chunks of `size`.
pub fn chunks(strings: &Vec<String>, size: usize) -> (res: Vec<Vec<String>>)
    requires
        size > 0,
    ensures
        all_texts(res@) == chunked(texts(strings@), size as nat),
{
    let ghost all = texts(strings@);
    let mut res: Vec<Vec<String>> = Vec::new();
    let mut i: usize = 0;
    while i < strings.len()
        invariant
            size > 0,
            i <= strings@.len(),
            all == texts(strings@),
            all_texts(res@) + chunked(all.skip(i as int), size as nat) == chunked(all, size as nat),
        decreases strings@.len() - i,
    {
        let end: usize = if strings.len() - i <= size {
            strings.len()
        } else {
            i + size
        };
        let mut chunk: Vec<String> = Vec::new();
        let mut j: usize = i;
        while j < end
            invariant
                i <= j <= end <= strings@.len(),
                all == texts(strings@),
                texts(chunk@) == all.subrange(i as int, j as int),
            decreases end - j,
        {
            chunk.push(strings[j].clone());
            proof {
                assert(all[j as int] == strings@[j as int]@);
                assert(all.subrange(i as int, j + 1) =~= all.subrange(i as int, j as int).push(
                    all[j as int],
                ));
            }
            j += 1;
        }
        let ghost before = all_texts(res@);
        let ghost rest = all.skip(i as int);
        res.push(chunk);
        proof {
            assert(all_texts(res@) =~= before.push(texts(chunk@)));
            assert(rest.skip(end - i) =~= all.skip(end as int));
            assert(texts(chunk@) =~= rest.take(end - i));
            if rest.len() <= size {
                assert(rest.take(end - i) =~= rest);
                assert(chunked(all.skip(end as int), size as nat) =~= Seq::empty());
            }
            assert(all_texts(res@) + chunked(all.skip(end as int), size as nat) =~= before
                + chunked(rest, size as nat));
        }
        i = end;
    }
    proof {
        assert(all_texts(res@) + chunked(all.skip(i as int), size as nat) =~= all_texts(res@));
    }
    res
}

impl Query {
    /// The keys in chunks of `size`, each of which is to be quoted for one
    /// batch. The query for files to ignore knows the items by their numbers,
    /// without the leading letter.
    pub fn chunks(&self, keys: &Vec<String>, size: usize) -> (res: Vec<Vec<String>>)
        requires
            size > 0,
            self is IgnoredFiles ==> all_cuttable(texts(keys@)),
        ensures
            all_texts(res@) == chunked(asked_keys(self@, texts(keys@)), size as nat),
    {
        match self {
            Query::IgnoredFiles => {
                let numbers = cut_first_bytes(keys);
                chunks(&numbers, size)
            },
            _ => chunks(keys, size),
        }
    }

    /// One batch: the query for a chunk of keys that has been quoted into
    /// placeholders and values. The query for language links knows the items
    /// by their numbers, without the leading letter.
    pub fn batch(&self, quoted: SQLtuple) -> (res: SQLtuple)
        requires
            self is LanguageLinks ==> all_cuttable(texts(quoted.1@)),
        ensures
            res.0@ == query_text(self@, quoted.0@),
            texts(res.1@) == asked_values(self@, texts(quoted.1@)),
    {
        let (placeholders, values) = quoted;
        let mut sql = String::new();
        match self {
            Query::Items { without_p18 } => {
                sql.append(
                    "SELECT page_title FROM page WHERE page_namespace=0 AND page_is_redirect=0 AND page_title IN (",
                );
                sql.append(placeholders.as_str());
                sql.append(")");
                if *without_p18 {
                    sql.append(
                        " AND NOT EXISTS (SELECT * FROM pagelinks WHERE pl_from=page_id AND pl_namespace=120 AND pl_title='P18')",
                    );
                }
                sql.append(
                    " AND NOT EXISTS (SELECT * FROM pagelinks WHERE pl_from=page_id AND pl_namespace=0 AND pl_title IN ('Q13406463','Q4167410'))",
                );
            },
            Query::LanguageLinks => {
                sql.append(
                    "SELECT ips_item_id,ips_site_id,ips_site_page FROM wb_items_per_site WHERE ips_item_id IN (",
                );
                sql.append(placeholders.as_str());
                sql.append(")");
            },
            Query::ImageLinks { wiki } => {
                sql.append(
                    "SELECT DISTINCT gil_page_title AS page,gil_to AS image FROM page,globalimagelinks WHERE gil_wiki='",
                );
                sql.append(wiki.as_str());
                sql.append("' AND gil_page_title IN (");
                sql.append(placeholders.as_str());
                sql.append(")");
                sql.append(
                    " AND gil_page_namespace_id=0 AND page_namespace=6 and page_title=gil_to AND page_is_redirect=0",
                );
                sql.append(
                    " AND NOT EXISTS (SELECT * FROM categorylinks where page_id=cl_from and cl_to='Crop_for_Wikidata')",
                );
            },
            Query::PageImages => {
                sql.append(
                    "SELECT page_title,pp_value FROM page,page_props WHERE page_id=pp_page AND page_namespace=0 AND pp_propname='page_image_free' AND page_title IN (",
                );
                sql.append(placeholders.as_str());
                sql.append(")");
            },
            Query::Coordinates => {
                sql.append(
                    "SELECT page_title,gt_lat,gt_lon FROM geo_tags,page WHERE page_namespace=0 AND page_id=gt_page_id AND gt_globe='earth' AND gt_primary=1 AND page_title IN (",
                );
                sql.append(placeholders.as_str());
                sql.append(")");
            },
            Query::Labels => {
                sql.append(
                    "SELECT term_full_entity_id,term_text FROM wb_terms WHERE term_entity_type='item' AND term_language='en' AND term_type='label' AND term_full_entity_id IN (",
                );
                sql.append(placeholders.as_str());
                sql.append(")");
            },
            Query::IgnoredFiles => {
                sql.append(
                    "SELECT concat('Q',q),CONVERT(`file` USING utf8) FROM s51218__wdfist_p.ignore_files WHERE q IN (",
                );
                sql.append(placeholders.as_str());
                sql.append(")");
            },
            Query::UsedFiles => {
                sql.append(
                    "SELECT DISTINCT il_to FROM imagelinks WHERE il_from_namespace=0 AND il_to IN (",
                );
                sql.append(placeholders.as_str());
                sql.append(")");
            },
        }
        proof {
            assert(sql@ =~= query_text(self@, placeholders@));
        }
        match self {
            Query::LanguageLinks => (sql, cut_first_bytes(&values)),
            _ => (sql, values),
        }
    }
}

/// The query for the files to ignore for all items.
pub fn ignore_query() -> (sql: String)
    ensures
        sql@ == ignore_query_text(),
{
    let mut sql =
        "SELECT CONVERT(`file` USING utf8) FROM s51218__wdfist_p.ignore_files GROUP BY file HAVING count(*)>=".to_string();
    sql.append(decimal_text(MIN_IGNORE_DB_FILE_COUNT as u64).as_str());
    sql
}

} // verus!

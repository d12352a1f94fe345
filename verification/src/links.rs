//! From items to the pages about them in the wikis, and back.
use crate::answer::pair_texts;
use crate::pagelist::WIKIDATA_WIKI;
use crate::string_map::StringMap;
use crate::text::{decimal, decimal_text, replace_char, replaced, same_text};
use vstd::prelude::*;
use vstd::string::*;

verus! {

broadcast use {
    vstd::seq_lib::group_seq_properties,
    crate::text::lemma_texts_push,
    crate::answer::lemma_pair_texts_push,
};

/// Rows of an item's number, a wiki, and the page about the item there.
pub open spec fn link_texts(rows: Seq<(u64, String, String)>) -> Seq<(u64, Seq<char>, Seq<char>)> {
    rows.map_values(|r: (u64, String, String)| (r.0, r.1@, r.2@))
}

/// The id of an item, from its number.
pub open spec fn item_id(number: u64) -> Seq<char> {
    "Q"@ + decimal(number as nat)
}

/// The values of a map, as pairs of texts.
pub open spec fn group_texts(m: Map<Seq<char>, Vec<(String, String)>>) -> Map<
    Seq<char>,
    Seq<(Seq<char>, Seq<char>)>,
> {
    m.map_values(|pairs: Vec<(String, String)>| pair_texts(pairs@))
}

/// The pages about items in each wiki other than Wikidata, with the ids of the
/// items, in the order of the rows.
pub open spec fn grouped(rows: Seq<(u64, Seq<char>, Seq<char>)>) -> Map<
    Seq<char>,
    Seq<(Seq<char>, Seq<char>)>,
>
    decreases rows.len(),
{
    if rows.len() == 0 {
        Map::empty()
    } else {
        let before = grouped(rows.drop_last());
        let (number, wiki, page) = rows.last();
        let known = if before.contains_key(wiki) {
            before[wiki]
        } else {
            Seq::empty()
        };
        if wiki == WIKIDATA_WIKI@ {
            before
        } else {
            before.insert(wiki, known.push((replaced(page, ' ', '_'), item_id(number))))
        }
    }
}

/// Sorts the rows by wiki.
pub fn get_language_links(rows: &Vec<(u64, String, String)>) -> (groups: StringMap<
    Vec<(String, String)>,
>)
    ensures
        group_texts(groups@) == grouped(link_texts(rows@)),
{
    let ghost all = link_texts(rows@);
    let mut groups: StringMap<Vec<(String, String)>> = StringMap::new();
    let mut i: usize = 0;
    assert(group_texts(groups@) =~= grouped(all.take(0)));
    while i < rows.len()
        invariant
            i <= rows@.len(),
            all == link_texts(rows@),
            group_texts(groups@) == grouped(all.take(i as int)),
        decreases rows@.len() - i,
    {
        proof {
            assert(all.take(i + 1).drop_last() =~= all.take(i as int));
            assert(all.take(i + 1).last() == (
                rows@[i as int].0,
                rows@[i as int].1@,
                rows@[i as int].2@,
            ));
        }
        let wiki = &rows[i].1;
        if !same_text(wiki.as_str(), WIKIDATA_WIKI) {
            let ghost before = groups@;
            let mut item = "Q".to_string();
            item.append(decimal_text(rows[i].0).as_str());
            let page = replace_char(rows[i].2.as_str(), ' ', '_');
            let mut pairs = match groups.remove(wiki.as_str()) {
                Some(pairs) => pairs,
                None => Vec::new(),
            };
            proof {
                if before.contains_key(wiki@) {
                    assert(group_texts(before)[wiki@] == pair_texts(pairs@));
                } else {
                    assert(pair_texts(pairs@) =~= Seq::empty());
                }
            }
            pairs.push((page, item));
            groups.insert(wiki.clone(), pairs);
            proof {
                assert(group_texts(groups@) =~= grouped(all.take(i + 1)));
            }
        }
        i += 1;
    }
    proof {
        assert(all.take(i as int) =~= all);
    }
    groups
}

/// The values of a map, as texts.
pub open spec fn text_map(m: Map<Seq<char>, String>) -> Map<Seq<char>, Seq<char>> {
    m.map_values(|s: String| s@)
}

/// For each first text of the pairs, the second one. Where several pairs have
/// one first text, the last of them counts.
pub open spec fn as_map(pairs: Seq<(Seq<char>, Seq<char>)>) -> Map<Seq<char>, Seq<char>>
    decreases pairs.len(),
{
    if pairs.len() == 0 {
        Map::empty()
    } else {
        as_map(pairs.drop_last()).insert(pairs.last().0, pairs.last().1)
    }
}

/// The map that the pairs make.
pub fn map_of(pairs: &Vec<(String, String)>) -> (map: StringMap<String>)
    ensures
        text_map(map@) == as_map(pair_texts(pairs@)),
{
    let ghost all = pair_texts(pairs@);
    let mut map: StringMap<String> = StringMap::new();
    let mut i: usize = 0;
    assert(text_map(map@) =~= as_map(all.take(0)));
    while i < pairs.len()
        invariant
            i <= pairs@.len(),
            all == pair_texts(pairs@),
            text_map(map@) == as_map(all.take(i as int)),
        decreases pairs@.len() - i,
    {
        proof {
            assert(all.take(i + 1).drop_last() =~= all.take(i as int));
            assert(all.take(i + 1).last() == (pairs@[i as int].0@, pairs@[i as int].1@));
        }
        map.insert(pairs[i].0.clone(), pairs[i].1.clone());
        proof {
            assert(text_map(map@) =~= as_map(all.take(i + 1)));
        }
        i += 1;
    }
    proof {
        assert(all.take(i as int) =~= all);
    }
    map
}

/// The files on pages, each for the item that its page is about. Files on
/// other pages are left out.
pub open spec fn linked(
    page_file: Seq<(Seq<char>, Seq<char>)>,
    page2q: Map<Seq<char>, Seq<char>>,
) -> Seq<(Seq<char>, Seq<char>)>
    decreases page_file.len(),
{
    if page_file.len() == 0 {
        Seq::empty()
    } else {
        let before = linked(page_file.drop_last(), page2q);
        let (page, file) = page_file.last();
        if page2q.contains_key(page) {
            before.push((page2q[page], file))
        } else {
            before
        }
    }
}

/// Finds the items of files on pages.
pub fn link_files(page_file: &Vec<(String, String)>, page2q: &StringMap<String>) -> (item_file: Vec<
    (String, String),
>)
    ensures
        pair_texts(item_file@) == linked(pair_texts(page_file@), text_map(page2q@)),
{
    let ghost all = pair_texts(page_file@);
    let mut item_file: Vec<(String, String)> = Vec::new();
    let mut i: usize = 0;
    while i < page_file.len()
        invariant
            i <= page_file@.len(),
            all == pair_texts(page_file@),
            pair_texts(item_file@) == linked(all.take(i as int), text_map(page2q@)),
        decreases page_file@.len() - i,
    {
        proof {
            assert(all.take(i + 1).drop_last() =~= all.take(i as int));
            assert(all.take(i + 1).last() == (page_file@[i as int].0@, page_file@[i as int].1@));
        }
        if let Some(q) = page2q.get(page_file[i].0.as_str()) {
            item_file.push((q.clone(), page_file[i].1.clone()));
        }
        i += 1;
    }
    proof {
        assert(all.take(i as int) =~= all);
    }
    item_file
}

/// Tells whether a pair stands among others.
fn has_pair(pairs: &Vec<(String, String)>, p: &(String, String)) -> (yes: bool)
    ensures
        yes == pair_texts(pairs@).contains((p.0@, p.1@)),
{
    let ghost all = pair_texts(pairs@);
    let mut i: usize = 0;
    while i < pairs.len()
        invariant
            i <= pairs@.len(),
            all == pair_texts(pairs@),
            forall|k: int| 0 <= k < i ==> #[trigger] all[k] != (p.0@, p.1@),
        decreases pairs@.len() - i,
    {
        proof {
            assert(all[i as int] == (pairs@[i as int].0@, pairs@[i as int].1@));
        }
        if pairs[i].0.eq(&p.0) && pairs[i].1.eq(&p.1) {
            return true;
        }
        i += 1;
    }
    false
}

/// Those of the rows that stand among the others.
pub open spec fn those_in(
    rows: Seq<(Seq<char>, Seq<char>)>,
    others: Seq<(Seq<char>, Seq<char>)>,
) -> Seq<(Seq<char>, Seq<char>)> {
    rows.filter(|r: (Seq<char>, Seq<char>)| others.contains(r))
}

/// Keeps those of the rows that stand among the others.
pub fn keep_those_in(rows: &Vec<(String, String)>, others: &Vec<(String, String)>) -> (kept: Vec<
    (String, String),
>)
    ensures
        pair_texts(kept@) == those_in(pair_texts(rows@), pair_texts(others@)),
{
    let ghost all = pair_texts(rows@);
    let ghost wanted = |r: (Seq<char>, Seq<char>)| pair_texts(others@).contains(r);
    let mut kept: Vec<(String, String)> = Vec::new();
    let mut i: usize = 0;
    proof {
        reveal(Seq::filter);
    }
    while i < rows.len()
        invariant
            i <= rows@.len(),
            all == pair_texts(rows@),
            wanted == (|r: (Seq<char>, Seq<char>)| pair_texts(others@).contains(r)),
            pair_texts(kept@) == all.take(i as int).filter(wanted),
        decreases rows@.len() - i,
    {
        proof {
            reveal(Seq::filter);
            assert(all.take(i + 1).drop_last() =~= all.take(i as int));
            assert(all.take(i + 1).last() == (rows@[i as int].0@, rows@[i as int].1@));
        }
        if has_pair(others, &rows[i]) {
            kept.push((rows[i].0.clone(), rows[i].1.clone()));
        }
        i += 1;
    }
    proof {
        assert(all.take(i as int) =~= all);
    }
    kept
}

} // verus!

//! The answers of a wiki's API, and the files that they name.
use crate::filename::{normalize, normalized};
use crate::text::{can_cut, cut_bytes, cuttable, decimal, decimal_text, without_bytes};
use vstd::prelude::*;
use vstd::string::*;

verus! {

broadcast use vstd::seq_lib::group_seq_properties;

/// How far around an item's place files are looked for.
pub const NEARBY_FILES_RADIUS_IN_METERS: usize = 100;

/// The parts of a JSON value that are read here: members of objects, elements
/// of arrays, and texts.
#[derive(Debug)]
pub enum Answer {
    Object(Vec<(String, Answer)>),
    Array(Vec<Answer>),
    Text(String),
    Other,
}

/// The value of the first member with the name.
pub open spec fn member_of(members: Seq<(String, Answer)>, name: Seq<char>) -> Answer
    decreases members.len(),
{
    if members.len() == 0 {
        Answer::Other
    } else if members[0].0@ == name {
        members[0].1
    } else {
        member_of(members.drop_first(), name)
    }
}

/// The value of a member; what is no object has no members.
pub open spec fn member(answer: Answer, name: Seq<char>) -> Answer {
    match answer {
        Answer::Object(members) => member_of(members@, name),
        _ => Answer::Other,
    }
}

/// The text of a value that is one.
pub open spec fn text_in(answer: Answer) -> Option<Seq<char>> {
    match answer {
        Answer::Text(text) => Some(text@),
        _ => None,
    }
}

/// The titles that a search names: of each result under `query` and the name
/// of the search, the title, if it is a text. An answer without such results
/// names none.
pub open spec fn search_titles(answer: Answer, list: Seq<char>) -> Seq<Option<Seq<char>>> {
    match member(member(answer, "query"@), list) {
        Answer::Array(results) => results@.map_values(
            |result: Answer| text_in(member(result, "title"@)),
        ),
        _ => Seq::empty(),
    }
}

/// Pairs of texts.
pub open spec fn pair_texts(pairs: Seq<(String, String)>) -> Seq<(Seq<char>, Seq<char>)> {
    pairs.map_values(|p: (String, String)| (p.0@, p.1@))
}

/// The texts of a row of pairs and one more.
pub broadcast proof fn lemma_pair_texts_push(pairs: Seq<(String, String)>, p: (String, String))
    ensures
        #[trigger] pair_texts(pairs.push(p)) == pair_texts(pairs).push((p.0@, p.1@)),
{
    assert(pair_texts(pairs.push(p)) =~= pair_texts(pairs).push((p.0@, p.1@)));
}

/// The name of a file, from the title of its page: without the leading
/// `File:`, and normalized.
pub open spec fn file_of_title(title: Seq<char>) -> Seq<char> {
    normalized(without_bytes(title, 5))
}

/// Whether a leading `File:` can be taken from each title.
pub open spec fn titles_cuttable(titles: Seq<Option<Seq<char>>>) -> bool {
    forall|i: int|
        0 <= i < titles.len() ==> ((#[trigger] titles[i]) matches Some(t) ==> cuttable(t, 5))
}

/// The files that titles name, each for the item.
pub open spec fn files_for(item: Seq<char>, titles: Seq<Option<Seq<char>>>) -> Seq<
    (Seq<char>, Seq<char>),
>
    decreases titles.len(),
{
    if titles.len() == 0 {
        Seq::empty()
    } else {
        let before = files_for(item, titles.drop_last());
        match titles.last() {
            Some(title) => before.push((item, file_of_title(title))),
            None => before,
        }
    }
}

impl Answer {
    /// The value of a member; what is no object has no members.
    pub fn get(&self, name: &str) -> (value: &Answer)
        ensures
            *value == member(*self, name@),
    {
        if let Answer::Object(members) = self {
            let wanted = name.to_string();
            let mut i: usize = 0;
            while i < members.len()
                invariant
                    i <= members@.len(),
                    wanted@ == name@,
                    *self == Answer::Object(*members),
                    member_of(members@, name@) == member_of(members@.skip(i as int), name@),
                decreases members@.len() - i,
            {
                proof {
                    assert(members@.skip(i as int).drop_first() =~= members@.skip(i + 1));
                }
                if members[i].0.eq(&wanted) {
                    return &members[i].1;
                }
                i += 1;
            }
        }
        &Answer::Other
    }
}

/// The files that a search names, each for the item.
pub fn found_files(item: &String, answer: &Answer, list: &str) -> (files: Vec<(String, String)>)
    requires
        titles_cuttable(search_titles(*answer, list@)),
    ensures
        pair_texts(files@) == files_for(item@, search_titles(*answer, list@)),
{
    let ghost titles = search_titles(*answer, list@);
    let mut files: Vec<(String, String)> = Vec::new();
    if let Answer::Array(results) = answer.get("query").get(list) {
        let mut i: usize = 0;
        while i < results.len()
            invariant
                i <= results@.len(),
                titles == results@.map_values(
                    |result: Answer| text_in(member(result, "title"@)),
                ),
                titles_cuttable(titles),
                pair_texts(files@) == files_for(item@, titles.take(i as int)),
            decreases results@.len() - i,
        {
            proof {
                assert(titles.take(i + 1).drop_last() =~= titles.take(i as int));
                assert(titles[i as int] == text_in(member(results@[i as int], "title"@)));
            }
            if let Answer::Text(title) = results[i].get("title") {
                let file = normalize(cut_bytes(title.as_str(), 5).as_str());
                let ghost before = files@;
                files.push((item.clone(), file));
                proof {
                    lemma_pair_texts_push(before, files@.last());
                }
            }
            i += 1;
        }
        proof {
            assert(titles.take(i as int) =~= titles);
        }
    }
    files
}

/// Tells whether a leading `File:` can be taken from each title that a search
/// names.
pub fn can_read(answer: &Answer, list: &str) -> (yes: bool)
    ensures
        yes == titles_cuttable(search_titles(*answer, list@)),
{
    let ghost titles = search_titles(*answer, list@);
    if let Answer::Array(results) = answer.get("query").get(list) {
        let mut i: usize = 0;
        while i < results.len()
            invariant
                i <= results@.len(),
                titles == search_titles(*answer, list@),
                titles == results@.map_values(
                    |result: Answer| text_in(member(result, "title"@)),
                ),
                titles_cuttable(titles.take(i as int)),
            decreases results@.len() - i,
        {
            proof {
                assert(titles[i as int] == text_in(member(results@[i as int], "title"@)));
                assert(titles.take(i + 1)[i as int] == titles[i as int]);
                assert forall|k: int| 0 <= k < i implies titles.take(i + 1)[k] == titles.take(
                    i as int,
                )[k] by {}
            }
            if let Answer::Text(title) = results[i].get("title") {
                if !can_cut(title.as_str(), 5) {
                    return false;
                }
            }
            i += 1;
        }
        proof {
            assert(titles.take(i as int) =~= titles);
        }
    }
    true
}

/// The parameters that ask a wiki's API for the files near a place, whose
/// latitude and longitude are given as texts.
pub open spec fn geosearch_params(lat: Seq<char>, lon: Seq<char>) -> Seq<(Seq<char>, Seq<char>)> {
    seq![
        ("action"@, "query"@),
        ("list"@, "geosearch"@),
        ("gscoord"@, lat + "|"@ + lon),
        ("gsradius"@, decimal(NEARBY_FILES_RADIUS_IN_METERS as nat)),
        ("gslimit"@, "50"@),
        ("gsnamespace"@, "6"@),
    ]
}

/// The parameters that ask a wiki's API for the files that a text finds.
pub open spec fn search_params(label: Seq<char>) -> Seq<(Seq<char>, Seq<char>)> {
    seq![
        ("action"@, "query"@),
        ("list"@, "search"@),
        ("srnamespace"@, "6"@),
        ("srsearch"@, label),
    ]
}

fn pair(name: &str, value: &str) -> (p: (String, String))
    ensures
        (p.0@, p.1@) == (name@, value@),
{
    (name.to_string(), value.to_string())
}

/// Asks for the files near a place.
pub fn ask_nearby(lat: &str, lon: &str) -> (params: Vec<(String, String)>)
    ensures
        pair_texts(params@) == geosearch_params(lat@, lon@),
{
    let mut place = lat.to_string();
    place.append("|");
    place.append(lon);
    let radius = decimal_text(NEARBY_FILES_RADIUS_IN_METERS as u64);
    let params = vec![
        pair("action", "query"),
        pair("list", "geosearch"),
        pair("gscoord", place.as_str()),
        pair("gsradius", radius.as_str()),
        pair("gslimit", "50"),
        pair("gsnamespace", "6"),
    ];
    assert(pair_texts(params@) =~= geosearch_params(lat@, lon@));
    params
}

/// Asks for the files that a text finds.
pub fn ask_search(label: &str) -> (params: Vec<(String, String)>)
    ensures
        pair_texts(params@) == search_params(label@),
{
    let params = vec![
        pair("action", "query"),
        pair("list", "search"),
        pair("srnamespace", "6"),
        pair("srsearch", label),
    ];
    assert(pair_texts(params@) =~= search_params(label@));
    params
}

} // verus!

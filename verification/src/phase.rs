//! How far a search has come, what it asks for, and what it is told.
use crate::answer::{pair_texts, Answer};
use crate::links::text_map;
use crate::pagelist::optional_text;
use crate::query::Query;
use crate::string_map::StringMap;
use vstd::prelude::*;

verus! {

/// Work for which a wiki's pages or an API are asked one after the other: what
/// is asked about, and pairs that belong to it.
pub open spec fn job_texts(jobs: Seq<(String, Vec<(String, String)>)>) -> Seq<
    (Seq<char>, Seq<(Seq<char>, Seq<char>)>),
> {
    jobs.map_values(|j: (String, Vec<(String, String)>)| (j.0@, pair_texts(j.1@)))
}

/// The texts of a row of jobs and one more.
pub broadcast proof fn lemma_job_texts_push(
    jobs: Seq<(String, Vec<(String, String)>)>,
    j: (String, Vec<(String, String)>),
)
    ensures
        #[trigger] job_texts(jobs.push(j)) == job_texts(jobs).push((j.0@, pair_texts(j.1@))),
{
    assert(job_texts(jobs.push(j)) =~= job_texts(jobs).push((j.0@, pair_texts(j.1@))));
}

/// The search for files on the pages about the items, in the middle of it.
pub struct LinkWork {
    /// The wiki that is asked about.
    pub wiki: String,
    /// The items that the wiki's pages are about.
    pub page2q: StringMap<String>,
    /// The wikis that are still to be asked about, with their pages and items.
    pub pending: Vec<(String, Vec<(String, String)>)>,
    /// The files found so far, with their items.
    pub found: Vec<(String, String)>,
    /// The error that came last.
    pub error: Option<String>,
}

/// What the search for files on pages knows.
pub struct LinkView {
    pub wiki: Seq<char>,
    pub page2q: Map<Seq<char>, Seq<char>>,
    pub pending: Seq<(Seq<char>, Seq<(Seq<char>, Seq<char>)>)>,
    pub found: Seq<(Seq<char>, Seq<char>)>,
    pub error: Option<Seq<char>>,
}

impl View for LinkWork {
    type V = LinkView;

    open spec fn view(&self) -> LinkView {
        LinkView {
            wiki: self.wiki@,
            page2q: text_map(self.page2q@),
            pending: job_texts(self.pending@),
            found: pair_texts(self.found@),
            error: optional_text(self.error),
        }
    }
}

/// The search for files through an API, in the middle of it.
pub struct SearchWork {
    /// Whether files near places are searched, and not files by labels.
    pub nearby: bool,
    /// The item for which files are searched.
    pub item: String,
    /// The items that are still to be searched for, with what is asked.
    pub pending: Vec<(String, Vec<(String, String)>)>,
    /// The files found so far, with their items.
    pub found: Vec<(String, String)>,
    /// Whether the API could not be used.
    pub no_api: bool,
}

/// What the search for files through an API knows.
pub struct SearchView {
    pub nearby: bool,
    pub item: Seq<char>,
    pub pending: Seq<(Seq<char>, Seq<(Seq<char>, Seq<char>)>)>,
    pub found: Seq<(Seq<char>, Seq<char>)>,
    pub no_api: bool,
}

impl View for SearchWork {
    type V = SearchView;

    open spec fn view(&self) -> SearchView {
        SearchView {
            nearby: self.nearby,
            item: self.item@,
            pending: job_texts(self.pending@),
            found: pair_texts(self.found@),
            no_api: self.no_api,
        }
    }
}

/// How far a search has come: what it has asked for.
pub enum Phase {
    /// Nothing: it has not begun, or it is over.
    Idle,
    /// The wiki page that lists files to ignore.
    IgnorePage,
    /// The database of files to ignore.
    IgnoreDatabase,
    /// Which items qualify.
    Items,
    /// The pages about the items.
    LanguageLinks,
    /// The files on pages of a wiki.
    ImageLinks(LinkWork),
    /// The page images of pages on which files have been found.
    PageImages(LinkWork, Vec<(String, String)>),
    /// The coordinates of the items.
    Coordinates,
    /// The labels of the items.
    Labels,
    /// Files for an item, from an API.
    Search(SearchWork),
    /// The files to ignore for the items.
    IgnoredFiles,
    /// The files that items use.
    UsedFiles,
}

/// What a search remembers of how far it has come.
pub enum PhaseView {
    Idle,
    IgnorePage,
    IgnoreDatabase,
    Items,
    LanguageLinks,
    ImageLinks(LinkView),
    PageImages(LinkView, Seq<(Seq<char>, Seq<char>)>),
    Coordinates,
    Labels,
    Search(SearchView),
    IgnoredFiles,
    UsedFiles,
}

impl View for Phase {
    type V = PhaseView;

    open spec fn view(&self) -> PhaseView {
        match self {
            Phase::Idle => PhaseView::Idle,
            Phase::IgnorePage => PhaseView::IgnorePage,
            Phase::IgnoreDatabase => PhaseView::IgnoreDatabase,
            Phase::Items => PhaseView::Items,
            Phase::LanguageLinks => PhaseView::LanguageLinks,
            Phase::ImageLinks(work) => PhaseView::ImageLinks(work@),
            Phase::PageImages(work, page_file) => PhaseView::PageImages(
                work@,
                pair_texts(page_file@),
            ),
            Phase::Coordinates => PhaseView::Coordinates,
            Phase::Labels => PhaseView::Labels,
            Phase::Search(work) => PhaseView::Search(work@),
            Phase::IgnoredFiles => PhaseView::IgnoredFiles,
            Phase::UsedFiles => PhaseView::UsedFiles,
        }
    }
}

/// Why the tool database gave no rows.
pub enum ToolError {
    /// Its account could not be read.
    BadMutex(String),
    /// There is no connection.
    NoConnection(String),
    /// It refused the query.
    Query(String),
}

/// What came of loading the page with files to ignore.
pub enum PageReply {
    /// The API of its wiki could not be used.
    NoApi,
    /// It could not be loaded.
    Failed(String),
    /// Its text.
    Text(String),
}

/// What came of asking an API.
pub enum SearchReply {
    /// It could not be used.
    NoApi,
    /// It gave no answer.
    Failed,
    /// Its answer.
    Answer(Answer),
}

/// What a search is told.
pub enum Reply {
    /// To begin.
    Begin,
    /// The page with files to ignore.
    IgnorePage(PageReply),
    /// The files to ignore for all items; a row may have been unreadable.
    IgnoreDatabase(Result<Vec<Option<String>>, ToolError>),
    /// Rows of a text.
    Rows(Result<Vec<String>, String>),
    /// Rows of an item's number, a wiki, and a page.
    Links(Result<Vec<(u64, String, String)>, String>),
    /// Rows of two texts.
    Pairs(Result<Vec<(String, String)>, String>),
    /// Rows of an item, its latitude, and its longitude.
    Coordinates(Result<Vec<(String, String, String)>, String>),
    /// What an API says.
    Search(SearchReply),
    /// For each batch, the items with files to ignore for them, or why the
    /// database refused it; a row may have been unreadable.
    IgnoredFiles(Result<Vec<Result<Vec<Option<(String, String)>>, String>>, ToolError>),
}

/// What a search asks for.
pub enum Request {
    /// A page of the wiki that has the API.
    Page { api: String, url: String },
    /// Rows from the tool database.
    ToolDatabase { sql: String },
    /// Rows from a wiki's database, for keys.
    Query { wiki: String, query: Query, keys: Vec<String> },
    /// Rows from the tool database, for keys, batch by batch.
    ToolQuery { query: Query, keys: Vec<String> },
    /// An answer from an API.
    Search { api: String, params: Vec<(String, String)> },
}

/// What a search has come to.
pub struct RunResult {
    pub status: String,
    /// Items, with files and their counts.
    pub data: Vec<(String, Vec<(String, usize)>)>,
}

/// What a search does next.
pub enum Step {
    /// It asks for something, and is to be told what came of it.
    Ask(Request),
    /// It is over.
    Done(Result<RunResult, String>),
}

} // verus!

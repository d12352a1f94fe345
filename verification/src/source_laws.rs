//! What holds of a whole source of files, over all that a search is told while it
//! is at it.
use crate::answer::{files_for, pair_texts, search_titles};
use crate::files::{count_of, files_of, room_for};
use crate::laws::{
    course, files_known_after, finding_order_is_free, found_files_are_counted, lemma_room_for_none,
};
use crate::links::{as_map, grouped, link_texts, linked, those_in};
use crate::pattern::filetype;
use crate::phase::{PhaseView, Reply, Request, SearchReply, Step};
use crate::run::{
    awaits, finishes, label_jobs, list_name, lists_groups, next_search, next_wiki,
    place_jobs, proceeds, run_step,
};
use crate::text::lowercased;
use crate::wdfist::{flag, FistView};
use vstd::multiset::Multiset;
use vstd::prelude::*;

verus! {

broadcast use vstd::seq_lib::group_seq_properties;

/// The files that a reply tells of, each with its item.
pub open spec fn files_told(s: FistView, reply: Reply) -> Seq<(Seq<char>, Seq<char>)> {
    match (s.phase, reply) {
        (PhaseView::ImageLinks(work), Reply::Pairs(Ok(rows))) => if flag(
            s.params,
            "wdf_only_page_images"@,
        ) {
            Seq::empty()
        } else {
            linked(pair_texts(rows@), work.page2q)
        },
        (PhaseView::PageImages(work, page_file), Reply::Pairs(Ok(rows))) => linked(
            those_in(pair_texts(rows@), page_file),
            work.page2q,
        ),
        (PhaseView::Search(work), Reply::Search(SearchReply::Answer(answer))) => files_for(
            work.item,
            search_titles(answer, list_name(work.nearby)),
        ),
        _ => Seq::empty(),
    }
}

/// The error that a reply tells of.
pub open spec fn error_told(s: FistView, reply: Reply) -> Option<Seq<char>> {
    match (s.phase, reply) {
        (PhaseView::LanguageLinks, Reply::Links(Err(e))) => Some(e@),
        (PhaseView::ImageLinks(_), Reply::Pairs(Err(e))) => Some(e@),
        (PhaseView::PageImages(_, _), Reply::Pairs(Err(e))) => Some(e@),
        (PhaseView::Coordinates, Reply::Coordinates(Err(e))) => Some(e@),
        (PhaseView::Labels, Reply::Pairs(Err(e))) => Some(e@),
        (PhaseView::Search(_), Reply::Search(SearchReply::NoApi)) => Some(
            "Can't get Commons API"@,
        ),
        _ => None,
    }
}

/// The files that the first `n` replies tell of, in their order.
pub open spec fn all_told(states: Seq<FistView>, replies: Seq<Reply>, n: nat) -> Seq<
    (Seq<char>, Seq<char>),
>
    decreases n,
{
    if n == 0 {
        Seq::empty()
    } else {
        all_told(states, replies, (n - 1) as nat) + files_told(states[n - 1], replies[n - 1])
    }
}

/// The last error that the first `n` replies tell of.
pub open spec fn last_error(states: Seq<FistView>, replies: Seq<Reply>, n: nat) -> Option<
    Seq<char>,
>
    decreases n,
{
    if n == 0 {
        None
    } else {
        match error_told(states[n - 1], replies[n - 1]) {
            Some(e) => Some(e),
            None => last_error(states, replies, (n - 1) as nat),
        }
    }
}

/// Whether a search has asked for the first thing at a source of files.
pub open spec fn at_the_start(phase: PhaseView) -> bool {
    phase is LanguageLinks || phase is Coordinates || phase is Labels
}

/// Whether a search is in the middle of a source of files.
pub open spec fn in_the_middle(phase: PhaseView) -> bool {
    phase is ImageLinks || phase is PageImages || phase is Search
}

/// How many of the sources are done with after the one that is begun.
pub open spec fn sources_done(phase: PhaseView) -> nat {
    match phase {
        PhaseView::LanguageLinks => 1,
        PhaseView::Coordinates => 2,
        _ => 3,
    }
}

/// Whether the states are those of a search from the start of a source of files
/// to its end.
pub open spec fn whole_source(
    states: Seq<FistView>,
    replies: Seq<Reply>,
    steps: Seq<Step>,
) -> bool {
    &&& course(states, replies, steps)
    &&& replies.len() > 0
    &&& at_the_start(states[0].phase)
    &&& forall|k: int| 0 < k < replies.len() ==> in_the_middle((#[trigger] states[k]).phase)
    &&& !in_the_middle(states.last().phase)
}

/// Whether a search in the middle of a source that began in `first` remembers
/// the files and the error, and else is as it was.
pub open spec fn remembers(
    first: FistView,
    s: FistView,
    found: Seq<(Seq<char>, Seq<char>)>,
    error: Option<Seq<char>>,
) -> bool {
    &&& s == FistView { phase: s.phase, ..first }
    &&& match s.phase {
        PhaseView::ImageLinks(work) => first.phase is LanguageLinks && work.found == found
            && work.error == error,
        PhaseView::PageImages(work, _) => first.phase is LanguageLinks && work.found == found
            && work.error == error,
        PhaseView::Search(work) => {
            &&& if work.nearby {
                first.phase is Coordinates
            } else {
                first.phase is Labels
            }
            &&& work.found == found
            &&& error == (if work.no_api {
                Some("Can't get Commons API"@)
            } else {
                None
            })
        },
        _ => false,
    }
}

#[verifier::rlimit(50)]
proof fn lemma_step_at_source(
    first: FistView,
    s: FistView,
    reply: Reply,
    post: FistView,
    out: Step,
    found: Seq<(Seq<char>, Seq<char>)>,
    error: Option<Seq<char>>,
)
    requires
        awaits(s, reply),
        run_step(s, reply, post, out),
        at_the_start(first.phase),
        remembers(first, s, found, error) || s == first && found.len() == 0 && error is None,
    ensures
        ({
            let then = found + files_told(s, reply);
            let e = match error_told(s, reply) {
                Some(e) => Some(e),
                None => error,
            };
            let over = FistView { phase: PhaseView::Idle, ..first };
            if in_the_middle(post.phase) {
                remembers(first, post, then, e)
            } else {
                &&& finishes(over, then, e, sources_done(first.phase), post, out)
                &&& e is None ==> room_for(first.item2files, then)
            }
        }),
{
    let then = found + files_told(s, reply);
    let over = FistView { phase: PhaseView::Idle, ..first };
    assert(found + Seq::empty() =~= found);
    assert(Seq::<(Seq<char>, Seq<char>)>::empty() + Seq::empty() =~= Seq::<
        (Seq<char>, Seq<char>),
    >::empty());
    lemma_room_for_none(first.item2files);
    if s == first {
        assert(found =~= Seq::empty());
        match (s.phase, reply) {
            (PhaseView::LanguageLinks, Reply::Links(Ok(rows))) => {
                let jobs = choose|jobs: Seq<(Seq<char>, Seq<(Seq<char>, Seq<char>)>)>|
                    lists_groups(jobs, grouped(link_texts(rows@))) && #[trigger] next_wiki(
                        over,
                        jobs,
                        Seq::empty(),
                        None,
                        post,
                        out,
                    );
                assert(next_wiki(over, jobs, Seq::empty(), None, post, out));
            },
            _ => {},
        }
    }
}

/// In the middle of a source a search remembers what it has been told.
pub proof fn lemma_in_the_middle(
    states: Seq<FistView>,
    replies: Seq<Reply>,
    steps: Seq<Step>,
    k: nat,
)
    requires
        whole_source(states, replies, steps),
        0 < k < replies.len(),
    ensures
        remembers(
            states[0],
            states[k as int],
            all_told(states, replies, k),
            last_error(states, replies, k),
        ),
    decreases k,
{
    let i = (k - 1) as nat;
    if i > 0 {
        lemma_in_the_middle(states, replies, steps, i);
    }
    let reply = replies[i as int];
    assert(in_the_middle(states[k as int].phase));
    lemma_step_at_source(
        states[0],
        states[i as int],
        reply,
        states[k as int],
        steps[i as int],
        all_told(states, replies, i),
        last_error(states, replies, i),
    );
}

/// What a whole source of files adds: if no reply told of an error, the files of
/// all replies are found, for which there is room, and the search proceeds; if
/// one did, the search fails with the last of them, and is as it was.
pub proof fn source_adds_what_it_was_told(
    states: Seq<FistView>,
    replies: Seq<Reply>,
    steps: Seq<Step>,
)
    requires
        whole_source(states, replies, steps),
    ensures
        ({
            let n = replies.len();
            let over = FistView { phase: PhaseView::Idle, ..states[0] };
            match last_error(states, replies, n) {
                Some(e) => states.last() == over && (steps.last() matches Step::Done(Err(message))
                    && message@ == e),
                None => {
                    &&& room_for(states[0].item2files, all_told(states, replies, n))
                    &&& proceeds(
                        over.with_found(all_told(states, replies, n)),
                        sources_done(states[0].phase),
                        states.last(),
                        steps.last(),
                    )
                },
            }
        }),
{
    let n = replies.len();
    let i = (n - 1) as nat;
    if i > 0 {
        lemma_in_the_middle(states, replies, steps, i);
    }
    let reply = replies[i as int];
    lemma_step_at_source(
        states[0],
        states[i as int],
        reply,
        states[n as int],
        steps[i as int],
        all_told(states, replies, i),
        last_error(states, replies, i),
    );
}

/// What is asked of the API at a source of files, by the reply to the first
/// question.
pub open spec fn search_jobs(reply: Reply) -> Seq<(Seq<char>, Seq<(Seq<char>, Seq<char>)>)> {
    match reply {
        Reply::Coordinates(Ok(rows)) => place_jobs(rows@),
        Reply::Pairs(Ok(rows)) => label_jobs(rows@),
        _ => Seq::empty(),
    }
}

/// Whether the API is asked for what the job says.
pub open spec fn asks_for(
    s: FistView,
    out: Step,
    jobs: Seq<(Seq<char>, Seq<(Seq<char>, Seq<char>)>)>,
    left: nat,
) -> bool {
    &&& left < jobs.len()
    &&& s.phase matches PhaseView::Search(work) && work.item == jobs[left as int].0 && work.pending
        == jobs.take(left as int)
    &&& out matches Step::Ask(Request::Search { api, params }) && api@
        == "https://commons.wikimedia.org/w/api.php"@ && pair_texts(params@)
        == jobs[left as int].1
}

/// The API is asked about every item that has a place or a label, one after the
/// other from the last to the first.
pub proof fn items_are_searched_in_turn(
    states: Seq<FistView>,
    replies: Seq<Reply>,
    steps: Seq<Step>,
    k: nat,
)
    requires
        whole_source(states, replies, steps),
        states[0].phase is Coordinates || states[0].phase is Labels,
        error_told(states[0], replies[0]) is None,
        0 < k <= replies.len(),
    ensures
        k < replies.len() ==> k <= search_jobs(replies[0]).len() && asks_for(
            states[k as int],
            steps[k - 1],
            search_jobs(replies[0]),
            (search_jobs(replies[0]).len() - k) as nat,
        ),
        k == replies.len() ==> k == search_jobs(replies[0]).len() + 1,
    decreases k,
{
    let jobs = search_jobs(replies[0]);
    let i = (k - 1) as nat;
    let reply = replies[i as int];
    let over = FistView { phase: PhaseView::Idle, ..states[i as int] };
    let (post, out) = (states[k as int], steps[i as int]);
    assert(run_step(states[i as int], reply, post, out));
    if k < replies.len() {
        assert(in_the_middle(post.phase));
    }
    if i == 0 {
        assert(next_search(
            over,
            states[0].phase is Coordinates,
            jobs,
            Seq::empty(),
            false,
            post,
            out,
        ));
        if jobs.len() > 0 {
            assert(jobs.drop_last() =~= jobs.take(jobs.len() - 1));
        }
    } else {
        items_are_searched_in_turn(states, replies, steps, i);
        let left = (jobs.len() - i) as nat;
        if left > 0 {
            assert(jobs.take(left as int).drop_last() =~= jobs.take(left - 1));
            assert(jobs.take(left as int).last() == jobs[left - 1]);
        }
    }
}

/// The files on the pages of one wiki that count for their items: all of them,
/// or only the page images among them.
pub open spec fn files_on_wiki(
    job: (Seq<char>, Seq<(Seq<char>, Seq<char>)>),
    images: Map<Seq<char>, Seq<(Seq<char>, Seq<char>)>>,
    page_images: Map<Seq<char>, Seq<(Seq<char>, Seq<char>)>>,
    only_page_images: bool,
) -> Seq<(Seq<char>, Seq<char>)> {
    linked(
        if only_page_images {
            those_in(page_images[job.0], images[job.0])
        } else {
            images[job.0]
        },
        as_map(job.1),
    )
}

/// The files on the pages of wikis, from the last wiki to the first.
pub open spec fn files_on_wikis(
    jobs: Seq<(Seq<char>, Seq<(Seq<char>, Seq<char>)>)>,
    images: Map<Seq<char>, Seq<(Seq<char>, Seq<char>)>>,
    page_images: Map<Seq<char>, Seq<(Seq<char>, Seq<char>)>>,
    only_page_images: bool,
) -> Seq<(Seq<char>, Seq<char>)>
    decreases jobs.len(),
{
    if jobs.len() == 0 {
        Seq::empty()
    } else {
        files_on_wikis(jobs.drop_first(), images, page_images, only_page_images) + files_on_wiki(
            jobs[0],
            images,
            page_images,
            only_page_images,
        )
    }
}

/// Whether the databases tell of the files on the pages of each wiki what
/// `images` has, and of its page images what `page_images` has.
pub open spec fn databases_tell(
    states: Seq<FistView>,
    replies: Seq<Reply>,
    images: Map<Seq<char>, Seq<(Seq<char>, Seq<char>)>>,
    page_images: Map<Seq<char>, Seq<(Seq<char>, Seq<char>)>>,
) -> bool {
    forall|k: int|
        0 <= k < replies.len() ==> match (states[k].phase, #[trigger] replies[k]) {
            (PhaseView::ImageLinks(work), Reply::Pairs(Ok(rows))) => pair_texts(rows@)
                == images[work.wiki],
            (PhaseView::PageImages(work, _), Reply::Pairs(Ok(rows))) => pair_texts(rows@)
                == page_images[work.wiki],
            _ => true,
        }
}

proof fn lemma_no_error_before(states: Seq<FistView>, replies: Seq<Reply>, n: nat, k: nat)
    requires
        last_error(states, replies, n) is None,
        k <= n,
    ensures
        last_error(states, replies, k) is None,
    decreases n,
{
    if k < n {
        lemma_no_error_before(states, replies, (n - 1) as nat, k);
    }
}

/// Whether a search is at the wiki before which `left` are pending, and what it
/// has been told of are the files on the pages of those after it.
spec fn at_wiki(
    s: FistView,
    told: Seq<(Seq<char>, Seq<char>)>,
    jobs: Seq<(Seq<char>, Seq<(Seq<char>, Seq<char>)>)>,
    images: Map<Seq<char>, Seq<(Seq<char>, Seq<char>)>>,
    page_images: Map<Seq<char>, Seq<(Seq<char>, Seq<char>)>>,
    left: int,
) -> bool {
    let only = flag(s.params, "wdf_only_page_images"@);
    &&& 0 <= left < jobs.len()
    &&& told == files_on_wikis(jobs.skip(left + 1), images, page_images, only)
    &&& match s.phase {
        PhaseView::ImageLinks(work) => {
            &&& work.pending == jobs.take(left)
            &&& work.wiki == jobs[left].0
            &&& work.page2q == as_map(jobs[left].1)
        },
        PhaseView::PageImages(work, page_file) => {
            &&& work.pending == jobs.take(left)
            &&& work.wiki == jobs[left].0
            &&& work.page2q == as_map(jobs[left].1)
            &&& page_file == images[work.wiki]
            &&& only
        },
        _ => false,
    }
}

#[verifier::rlimit(50)]
proof fn lemma_wiki_by_wiki(
    states: Seq<FistView>,
    replies: Seq<Reply>,
    steps: Seq<Step>,
    jobs: Seq<(Seq<char>, Seq<(Seq<char>, Seq<char>)>)>,
    images: Map<Seq<char>, Seq<(Seq<char>, Seq<char>)>>,
    page_images: Map<Seq<char>, Seq<(Seq<char>, Seq<char>)>>,
    k: nat,
) -> (left: int)
    requires
        whole_source(states, replies, steps),
        states[0].phase is LanguageLinks,
        next_wiki(
            FistView { phase: PhaseView::Idle, ..states[0] },
            jobs,
            Seq::empty(),
            None,
            states[1],
            steps[0],
        ),
        files_told(states[0], replies[0]).len() == 0,
        databases_tell(states, replies, images, page_images),
        last_error(states, replies, replies.len()) is None,
        0 < k <= replies.len(),
    ensures
        k < replies.len() ==> at_wiki(
            states[k as int],
            all_told(states, replies, k),
            jobs,
            images,
            page_images,
            left,
        ),
        k == replies.len() ==> all_told(states, replies, k) == files_on_wikis(
            jobs,
            images,
            page_images,
            flag(states[0].params, "wdf_only_page_images"@),
        ),
    decreases k,
{
    let only = flag(states[0].params, "wdf_only_page_images"@);
    let i = (k - 1) as nat;
    let reply = replies[i as int];
    let (s, post, out) = (states[i as int], states[k as int], steps[i as int]);
    lemma_no_error_before(states, replies, replies.len(), k);
    assert(awaits(s, reply) && run_step(s, reply, post, out));
    if k < replies.len() {
        assert(in_the_middle(post.phase));
    }
    if i == 0 {
        assert(all_told(states, replies, 0) =~= Seq::empty());
        assert(all_told(states, replies, 1) =~= Seq::empty());
        let left = jobs.len() - 1;
        if jobs.len() > 0 {
            assert(jobs.skip(jobs.len() as int) =~= Seq::empty());
            assert(jobs.drop_last() =~= jobs.take(left));
        }
        left
    } else {
        let left = lemma_wiki_by_wiki(states, replies, steps, jobs, images, page_images, i);
        lemma_in_the_middle(states, replies, steps, i);
        let told = all_told(states, replies, i);
        let rest = jobs.skip(left);
        assert(rest.drop_first() =~= jobs.skip(left + 1));
        assert(rest[0] == jobs[left]);
        assert(told + Seq::empty() =~= told);
        assert(jobs.skip(0) =~= jobs);
        if left > 0 {
            assert(jobs.take(left).drop_last() =~= jobs.take(left - 1));
            assert(jobs.take(left).last() == jobs[left - 1]);
        }
        if s.phase is ImageLinks && only {
            left
        } else {
            assert(all_told(states, replies, k) =~= files_on_wikis(
                rest,
                images,
                page_images,
                only,
            ));
            left - 1
        }
    }
}

/// The pages about the items are looked through wiki by wiki, each wiki once, in
/// some order: what the search is told of are the files on all of them.
pub proof fn wikis_are_asked_in_turn(
    states: Seq<FistView>,
    replies: Seq<Reply>,
    steps: Seq<Step>,
    rows: Vec<(u64, String, String)>,
    images: Map<Seq<char>, Seq<(Seq<char>, Seq<char>)>>,
    page_images: Map<Seq<char>, Seq<(Seq<char>, Seq<char>)>>,
)
    requires
        whole_source(states, replies, steps),
        states[0].phase is LanguageLinks,
        replies[0] == Reply::Links(Ok(rows)),
        databases_tell(states, replies, images, page_images),
        last_error(states, replies, replies.len()) is None,
    ensures
        exists|jobs: Seq<(Seq<char>, Seq<(Seq<char>, Seq<char>)>)>|
            #![trigger lists_groups(jobs, grouped(link_texts(rows@)))]
            lists_groups(jobs, grouped(link_texts(rows@))) && all_told(
                states,
                replies,
                replies.len(),
            ) == files_on_wikis(
                jobs,
                images,
                page_images,
                flag(states[0].params, "wdf_only_page_images"@),
            ),
{
    let over = FistView { phase: PhaseView::Idle, ..states[0] };
    let reply = replies[0];
    assert(run_step(states[0], reply, states[1], steps[0]));
    let jobs = choose|jobs: Seq<(Seq<char>, Seq<(Seq<char>, Seq<char>)>)>|
        lists_groups(jobs, grouped(link_texts(rows@))) && #[trigger] next_wiki(
            over,
            jobs,
            Seq::empty(),
            None,
            states[1],
            steps[0],
        );
    lemma_wiki_by_wiki(states, replies, steps, jobs, images, page_images, replies.len());
}

#[verifier::rlimit(50)]
proof fn lemma_wiki_taken_out(
    jobs: Seq<(Seq<char>, Seq<(Seq<char>, Seq<char>)>)>,
    images: Map<Seq<char>, Seq<(Seq<char>, Seq<char>)>>,
    page_images: Map<Seq<char>, Seq<(Seq<char>, Seq<char>)>>,
    only: bool,
    i: int,
)
    requires
        0 <= i < jobs.len(),
    ensures
        files_on_wikis(jobs, images, page_images, only).to_multiset() == files_on_wikis(
            jobs.remove(i),
            images,
            page_images,
            only,
        ).to_multiset().add(files_on_wiki(jobs[i], images, page_images, only).to_multiset()),
    decreases jobs.len(),
{
    let rest = jobs.drop_first();
    let first = files_on_wiki(jobs[0], images, page_images, only);
    let others = files_on_wikis(rest, images, page_images, only);
    vstd::seq_lib::lemma_multiset_commutative(others, first);
    if i == 0 {
        assert(jobs.remove(0) =~= rest);
    } else {
        lemma_wiki_taken_out(rest, images, page_images, only, i - 1);
        let fewer = jobs.remove(i);
        assert(fewer.drop_first() =~= rest.remove(i - 1));
        assert(fewer[0] == jobs[0]);
        assert(rest[i - 1] == jobs[i]);
        let without = files_on_wikis(fewer.drop_first(), images, page_images, only);
        let taken = files_on_wiki(jobs[i], images, page_images, only);
        vstd::seq_lib::lemma_multiset_commutative(without, first);
        lemma_last_two_swap(
            without.to_multiset(),
            taken.to_multiset(),
            first.to_multiset(),
        );
    }
}

proof fn lemma_last_two_swap(
    a: Multiset<(Seq<char>, Seq<char>)>,
    b: Multiset<(Seq<char>, Seq<char>)>,
    c: Multiset<(Seq<char>, Seq<char>)>,
)
    ensures
        a.add(b).add(c) == a.add(c).add(b),
{
    assert(a.add(b).add(c) =~= a.add(c).add(b));
}

proof fn lemma_order_of_wikis(
    a: Seq<(Seq<char>, Seq<(Seq<char>, Seq<char>)>)>,
    b: Seq<(Seq<char>, Seq<(Seq<char>, Seq<char>)>)>,
    images: Map<Seq<char>, Seq<(Seq<char>, Seq<char>)>>,
    page_images: Map<Seq<char>, Seq<(Seq<char>, Seq<char>)>>,
    only: bool,
)
    requires
        a.to_multiset() == b.to_multiset(),
    ensures
        files_on_wikis(a, images, page_images, only).to_multiset() == files_on_wikis(
            b,
            images,
            page_images,
            only,
        ).to_multiset(),
    decreases a.len(),
{
    a.to_multiset_ensures();
    b.to_multiset_ensures();
    assert(a.len() == b.len());
    if a.len() == 0 {
        assert(a =~= b);
    } else {
        assert(a.contains(a[0]));
        assert(b.to_multiset().count(a[0]) > 0);
        assert(b.contains(a[0]));
        let i = choose|i: int| 0 <= i < b.len() && b[i] == a[0];
        assert(a.remove(0).to_multiset() =~= b.remove(i).to_multiset());
        lemma_order_of_wikis(a.remove(0), b.remove(i), images, page_images, only);
        lemma_wiki_taken_out(a, images, page_images, only, 0);
        lemma_wiki_taken_out(b, images, page_images, only, i);
    }
}

/// In which order the wikis are looked through makes no difference to the files
/// found, nor to how often each is.
pub proof fn order_of_wikis_is_free(
    groups: Map<Seq<char>, Seq<(Seq<char>, Seq<char>)>>,
    a: Seq<(Seq<char>, Seq<(Seq<char>, Seq<char>)>)>,
    b: Seq<(Seq<char>, Seq<(Seq<char>, Seq<char>)>)>,
    images: Map<Seq<char>, Seq<(Seq<char>, Seq<char>)>>,
    page_images: Map<Seq<char>, Seq<(Seq<char>, Seq<char>)>>,
    only_page_images: bool,
)
    requires
        lists_groups(a, groups),
        lists_groups(b, groups),
    ensures
        files_on_wikis(a, images, page_images, only_page_images).to_multiset() == files_on_wikis(
            b,
            images,
            page_images,
            only_page_images,
        ).to_multiset(),
{
    a.to_multiset_ensures();
    b.to_multiset_ensures();
    lemma_each_once(a, groups);
    lemma_each_once(b, groups);
    assert forall|x: (Seq<char>, Seq<(Seq<char>, Seq<char>)>)| #[trigger]
        a.to_multiset().count(x) == b.to_multiset().count(x) by {
        assert(a.contains(x) <==> groups.contains_key(x.0) && groups[x.0] == x.1);
        assert(b.contains(x) <==> groups.contains_key(x.0) && groups[x.0] == x.1);
        assert(a.contains(x) <==> a.to_multiset().count(x) > 0);
        assert(b.contains(x) <==> b.to_multiset().count(x) > 0);
        assert(a.to_multiset().contains(x) ==> a.to_multiset().count(x) == 1);
        assert(b.to_multiset().contains(x) ==> b.to_multiset().count(x) == 1);
    }
    assert(a.to_multiset() =~= b.to_multiset());
    lemma_order_of_wikis(a, b, images, page_images, only_page_images);
}

proof fn lemma_each_once(
    jobs: Seq<(Seq<char>, Seq<(Seq<char>, Seq<char>)>)>,
    groups: Map<Seq<char>, Seq<(Seq<char>, Seq<char>)>>,
)
    requires
        lists_groups(jobs, groups),
    ensures
        forall|x: (Seq<char>, Seq<(Seq<char>, Seq<char>)>)| #[trigger]
            jobs.contains(x) <==> groups.contains_key(x.0) && groups[x.0] == x.1,
        forall|x: (Seq<char>, Seq<(Seq<char>, Seq<char>)>)|
            jobs.to_multiset().contains(x) ==> #[trigger] jobs.to_multiset().count(x) == 1,
{
    assert(jobs.no_duplicates()) by {
        assert forall|i: int, j: int|
            0 <= i < jobs.len() && 0 <= j < jobs.len() && i != j implies jobs[i] != jobs[j] by {
            if i < j {
                assert(jobs[i].0 != jobs[j].0);
            } else {
                assert(jobs[j].0 != jobs[i].0);
            }
        }
    }
    jobs.lemma_multiset_has_no_duplicates();
    assert forall|x: (Seq<char>, Seq<(Seq<char>, Seq<char>)>)|
        groups.contains_key(x.0) && groups[x.0] == x.1 implies #[trigger] jobs.contains(x) by {
        let i = choose|i: int| 0 <= i < jobs.len() && (#[trigger] jobs[i]).0 == x.0;
        assert(jobs[i] == x);
    }
}

/// Whether the type of a file is SVG, in whatever letters.
pub open spec fn is_svg(file: Seq<char>) -> bool {
    filetype(file) matches Some(t) && lowercased(t) == "svg"@
}

/// Allowing SVG files adds SVG files, and nothing else: of the same files found,
/// no file is counted less often, and those that are known or counted otherwise
/// are SVG files.
pub proof fn allowing_svg_adds_svg_files(
    s: FistView,
    found: Seq<(Seq<char>, Seq<char>)>,
    item: Seq<char>,
    file: Seq<char>,
)
    requires
        room_for(s.item2files, found),
    ensures
        ({
            let more = (FistView { allow_svg: true, ..s }).with_found(found).item2files;
            let less = (FistView { allow_svg: false, ..s }).with_found(found).item2files;
            &&& count_of(less, item, file) <= count_of(more, item, file)
            &&& files_of(less, item).contains_key(file) ==> files_of(more, item).contains_key(file)
            &&& count_of(less, item, file) != count_of(more, item, file) ==> is_svg(file)
            &&& files_of(less, item).contains_key(file) != files_of(more, item).contains_key(file)
                ==> is_svg(file)
        }),
{
    let with = FistView { allow_svg: true, ..s };
    let without = FistView { allow_svg: false, ..s };
    found_files_are_counted(with, found, item, file);
    found_files_are_counted(without, found, item, file);
    files_known_after(with, found, item, file);
    files_known_after(without, found, item, file);
}

/// Of two searches through the pages about the items that differ only in whether
/// SVG files are allowed, and that the databases tell the same: the one without
/// SVG files knows no file that the other does not, counts none more often, and
/// where the two differ it is over an SVG file.
#[verifier::rlimit(50)]
pub proof fn pages_without_svg_give_less(
    states: Seq<FistView>,
    replies: Seq<Reply>,
    steps: Seq<Step>,
    other_states: Seq<FistView>,
    other_replies: Seq<Reply>,
    other_steps: Seq<Step>,
    rows: Vec<(u64, String, String)>,
    images: Map<Seq<char>, Seq<(Seq<char>, Seq<char>)>>,
    page_images: Map<Seq<char>, Seq<(Seq<char>, Seq<char>)>>,
    item: Seq<char>,
    file: Seq<char>,
)
    requires
        whole_source(states, replies, steps),
        whole_source(other_states, other_replies, other_steps),
        states[0].phase is LanguageLinks,
        states[0].allow_svg,
        other_states[0] == (FistView { allow_svg: false, ..states[0] }),
        replies[0] == Reply::Links(Ok(rows)),
        other_replies[0] == replies[0],
        databases_tell(states, replies, images, page_images),
        databases_tell(other_states, other_replies, images, page_images),
        steps.last() is Ask,
        other_steps.last() is Ask,
    ensures
        ({
            let more = states.last().item2files;
            let less = other_states.last().item2files;
            &&& count_of(less, item, file) <= count_of(more, item, file)
            &&& files_of(less, item).contains_key(file) ==> files_of(more, item).contains_key(file)
            &&& count_of(less, item, file) != count_of(more, item, file) ==> is_svg(file)
            &&& files_of(less, item).contains_key(file) != files_of(more, item).contains_key(file)
                ==> is_svg(file)
        }),
{
    let only = flag(states[0].params, "wdf_only_page_images"@);
    let groups = grouped(link_texts(rows@));
    let found = all_told(states, replies, replies.len());
    let other_found = all_told(other_states, other_replies, other_replies.len());
    source_adds_what_it_was_told(states, replies, steps);
    source_adds_what_it_was_told(other_states, other_replies, other_steps);
    wikis_are_asked_in_turn(states, replies, steps, rows, images, page_images);
    wikis_are_asked_in_turn(
        other_states,
        other_replies,
        other_steps,
        rows,
        images,
        page_images,
    );
    let a = choose|jobs: Seq<(Seq<char>, Seq<(Seq<char>, Seq<char>)>)>|
        #![trigger lists_groups(jobs, groups)]
        lists_groups(jobs, groups) && found == files_on_wikis(jobs, images, page_images, only);
    let b = choose|jobs: Seq<(Seq<char>, Seq<(Seq<char>, Seq<char>)>)>|
        #![trigger lists_groups(jobs, groups)]
        lists_groups(jobs, groups) && other_found == files_on_wikis(
            jobs,
            images,
            page_images,
            only,
        );
    order_of_wikis_is_free(groups, a, b, images, page_images, only);
    let over = FistView { phase: PhaseView::Idle, ..states[0] };
    let other = FistView { phase: PhaseView::Idle, ..other_states[0] };
    finding_order_is_free(other, other_found, found);
    allowing_svg_adds_svg_files(over, found, item, file);
    assert(FistView { allow_svg: true, ..over } == over);
    assert(FistView { allow_svg: false, ..over } == other);
}

/// Which items files on pages are linked to.
#[verifier::rlimit(50)]
pub proof fn lemma_linked_contains(
    page_file: Seq<(Seq<char>, Seq<char>)>,
    page2q: Map<Seq<char>, Seq<char>>,
    item: Seq<char>,
    file: Seq<char>,
)
    ensures
        linked(page_file, page2q).contains((item, file)) <==> exists|page: Seq<char>|
            #[trigger] page_file.contains((page, file)) && page2q.contains_key(page)
                && page2q[page] == item,
    decreases page_file.len(),
{
    if page_file.len() > 0 {
        let fewer = page_file.drop_last();
        let (page, name) = page_file.last();
        lemma_linked_contains(fewer, page2q, item, file);
        assert(page_file =~= fewer.push((page, name)));
        assert forall|p: Seq<char>| #[trigger] page_file.contains((p, file)) <==> fewer.contains(
            (p, file),
        ) || (p, file) == (page, name) by {
            assert(page_file[page_file.len() - 1] == (page, name));
            if fewer.contains((p, file)) {
                let k = choose|k: int| 0 <= k < fewer.len() && fewer[k] == (p, file);
                assert(page_file[k] == (p, file));
            }
        }
        let before = linked(fewer, page2q);
        let all = linked(page_file, page2q);
        if page2q.contains_key(page) {
            assert(all[all.len() - 1] == (page2q[page], name));
            if before.contains((item, file)) {
                let k = choose|k: int| 0 <= k < before.len() && before[k] == (item, file);
                assert(all[k] == (item, file));
            }
        }
        if all.contains((item, file)) && !before.contains((item, file)) {
            assert(page_file.contains((page, file)));
        }
        if exists|p: Seq<char>|
            #[trigger] fewer.contains((p, file)) && page2q.contains_key(p) && page2q[p] == item {
            let p = choose|p: Seq<char>|
                #[trigger] fewer.contains((p, file)) && page2q.contains_key(p) && page2q[p] == item;
            assert(page_file.contains((p, file)));
        }
        if exists|p: Seq<char>|
            #[trigger] page_file.contains((p, file)) && page2q.contains_key(p) && page2q[p]
                == item {
            let p = choose|p: Seq<char>|
                #[trigger] page_file.contains((p, file)) && page2q.contains_key(p) && page2q[p]
                    == item;
            if !fewer.contains((p, file)) {
                assert(all.contains((item, file)));
            }
        }
    }
}

/// Page images are among the files on pages: a file that counts for an item as a
/// page image counts for it among all files too, and it is the page image of a
/// page about the item.
pub proof fn page_images_are_among_the_files(
    rows: Seq<(Seq<char>, Seq<char>)>,
    page_file: Seq<(Seq<char>, Seq<char>)>,
    page2q: Map<Seq<char>, Seq<char>>,
    item: Seq<char>,
    file: Seq<char>,
)
    requires
        linked(those_in(rows, page_file), page2q).contains((item, file)),
    ensures
        linked(page_file, page2q).contains((item, file)),
        exists|page: Seq<char>|
            #[trigger] rows.contains((page, file)) && page2q.contains_key(page) && page2q[page]
                == item,
{
    let kept = those_in(rows, page_file);
    lemma_linked_contains(kept, page2q, item, file);
    lemma_linked_contains(page_file, page2q, item, file);
    let page = choose|page: Seq<char>|
        #[trigger] kept.contains((page, file)) && page2q.contains_key(page) && page2q[page] == item;
    lemma_those_in(rows, page_file, (page, file));
    assert(page_file.contains((page, file)));
}

proof fn lemma_those_in(
    rows: Seq<(Seq<char>, Seq<char>)>,
    others: Seq<(Seq<char>, Seq<char>)>,
    row: (Seq<char>, Seq<char>),
)
    requires
        those_in(rows, others).contains(row),
    ensures
        rows.contains(row),
        others.contains(row),
    decreases rows.len(),
{
    reveal(Seq::filter);
    let k = choose|k: int|
        0 <= k < those_in(rows, others).len() && those_in(rows, others)[k] == row;
    if rows.len() > 0 {
        let fewer = rows.drop_last();
        assert(rows[rows.len() - 1] == rows.last());
        if k < those_in(fewer, others).len() {
            assert(those_in(fewer, others)[k] == row);
            lemma_those_in(fewer, others, row);
            let j = choose|j: int| 0 <= j < fewer.len() && fewer[j] == row;
            assert(rows[j] == row);
        }
    }
}

/// The files on the pages of wikis are those on the pages of one of them.
#[verifier::rlimit(50)]
pub proof fn lemma_on_some_wiki(
    jobs: Seq<(Seq<char>, Seq<(Seq<char>, Seq<char>)>)>,
    images: Map<Seq<char>, Seq<(Seq<char>, Seq<char>)>>,
    page_images: Map<Seq<char>, Seq<(Seq<char>, Seq<char>)>>,
    only: bool,
    pair: (Seq<char>, Seq<char>),
)
    ensures
        files_on_wikis(jobs, images, page_images, only).contains(pair) <==> exists|i: int|
            0 <= i < jobs.len() && files_on_wiki(
                #[trigger] jobs[i],
                images,
                page_images,
                only,
            ).contains(pair),
    decreases jobs.len(),
{
    if jobs.len() > 0 {
        let rest = jobs.drop_first();
        let others = files_on_wikis(rest, images, page_images, only);
        let first = files_on_wiki(jobs[0], images, page_images, only);
        let all = files_on_wikis(jobs, images, page_images, only);
        lemma_on_some_wiki(rest, images, page_images, only, pair);
        assert(all.contains(pair) <==> others.contains(pair) || first.contains(pair)) by {
            if others.contains(pair) {
                let k = choose|k: int| 0 <= k < others.len() && others[k] == pair;
                assert(all[k] == pair);
            }
            if first.contains(pair) {
                let k = choose|k: int| 0 <= k < first.len() && first[k] == pair;
                assert(all[others.len() + k] == pair);
            }
        }
        if exists|i: int|
            0 <= i < rest.len() && files_on_wiki(
                #[trigger] rest[i],
                images,
                page_images,
                only,
            ).contains(pair) {
            let i = choose|i: int|
                0 <= i < rest.len() && files_on_wiki(
                    #[trigger] rest[i],
                    images,
                    page_images,
                    only,
                ).contains(pair);
            assert(jobs[i + 1] == rest[i]);
        }
        if exists|i: int|
            0 <= i < jobs.len() && files_on_wiki(
                #[trigger] jobs[i],
                images,
                page_images,
                only,
            ).contains(pair) {
            let i = choose|i: int|
                0 <= i < jobs.len() && files_on_wiki(
                    #[trigger] jobs[i],
                    images,
                    page_images,
                    only,
                ).contains(pair);
            if i > 0 {
                assert(rest[i - 1] == jobs[i]);
            }
        }
    }
}

/// Whether a file is the page image of a page about the item in some wiki.
pub open spec fn is_page_image(
    groups: Map<Seq<char>, Seq<(Seq<char>, Seq<char>)>>,
    page_images: Map<Seq<char>, Seq<(Seq<char>, Seq<char>)>>,
    item: Seq<char>,
    file: Seq<char>,
) -> bool {
    exists|wiki: Seq<char>, page: Seq<char>|
        groups.contains_key(wiki) && as_map(groups[wiki]).contains_key(page) && as_map(
            groups[wiki],
        )[page] == item && #[trigger] page_images[wiki].contains((page, file))
}

/// Of two searches through the pages about the items that differ only in whether
/// page images alone are wanted, and that the databases tell the same: the one
/// for page images knows no file that the other does not, and each file that it
/// did not know before is the page image of a page about its item.
#[verifier::rlimit(50)]
pub proof fn page_images_give_less(
    states: Seq<FistView>,
    replies: Seq<Reply>,
    steps: Seq<Step>,
    other_states: Seq<FistView>,
    other_replies: Seq<Reply>,
    other_steps: Seq<Step>,
    rows: Vec<(u64, String, String)>,
    images: Map<Seq<char>, Seq<(Seq<char>, Seq<char>)>>,
    page_images: Map<Seq<char>, Seq<(Seq<char>, Seq<char>)>>,
    item: Seq<char>,
    file: Seq<char>,
)
    requires
        whole_source(states, replies, steps),
        whole_source(other_states, other_replies, other_steps),
        states[0].phase is LanguageLinks,
        other_states[0] == (FistView { params: other_states[0].params, ..states[0] }),
        !flag(states[0].params, "wdf_only_page_images"@),
        flag(other_states[0].params, "wdf_only_page_images"@),
        replies[0] == Reply::Links(Ok(rows)),
        other_replies[0] == replies[0],
        databases_tell(states, replies, images, page_images),
        databases_tell(other_states, other_replies, images, page_images),
        steps.last() is Ask,
        other_steps.last() is Ask,
        files_of(other_states.last().item2files, item).contains_key(file),
    ensures
        files_of(states.last().item2files, item).contains_key(file),
        files_of(states[0].item2files, item).contains_key(file) || is_page_image(
            grouped(link_texts(rows@)),
            page_images,
            item,
            file,
        ),
{
    let groups = grouped(link_texts(rows@));
    let found = all_told(states, replies, replies.len());
    let other_found = all_told(other_states, other_replies, other_replies.len());
    source_adds_what_it_was_told(states, replies, steps);
    source_adds_what_it_was_told(other_states, other_replies, other_steps);
    wikis_are_asked_in_turn(states, replies, steps, rows, images, page_images);
    wikis_are_asked_in_turn(
        other_states,
        other_replies,
        other_steps,
        rows,
        images,
        page_images,
    );
    let a = choose|jobs: Seq<(Seq<char>, Seq<(Seq<char>, Seq<char>)>)>|
        #![trigger lists_groups(jobs, groups)]
        lists_groups(jobs, groups) && found == files_on_wikis(jobs, images, page_images, false);
    let b = choose|jobs: Seq<(Seq<char>, Seq<(Seq<char>, Seq<char>)>)>|
        #![trigger lists_groups(jobs, groups)]
        lists_groups(jobs, groups) && other_found == files_on_wikis(
            jobs,
            images,
            page_images,
            true,
        );
    let over = FistView { phase: PhaseView::Idle, ..states[0] };
    let other = FistView { phase: PhaseView::Idle, ..other_states[0] };
    files_known_after(over, found, item, file);
    files_known_after(other, other_found, item, file);
    if !files_of(states[0].item2files, item).contains_key(file) {
        lemma_on_some_wiki(b, images, page_images, true, (item, file));
        let i = choose|i: int|
            0 <= i < b.len() && files_on_wiki(
                #[trigger] b[i],
                images,
                page_images,
                true,
            ).contains((item, file));
        let (wiki, title_q) = b[i];
        page_images_are_among_the_files(
            page_images[wiki],
            images[wiki],
            as_map(title_q),
            item,
            file,
        );
        let page = choose|page: Seq<char>|
            #[trigger] page_images[wiki].contains((page, file)) && as_map(title_q).contains_key(
                page,
            ) && as_map(title_q)[page] == item;
        assert(groups.contains_key(wiki) && groups[wiki] == title_q);
        assert(page_images[wiki].contains((page, file)));
        let j = choose|j: int| 0 <= j < a.len() && (#[trigger] a[j]).0 == wiki;
        assert(a[j] == b[i]);
        assert(files_on_wiki(a[j], images, page_images, false).contains((item, file)));
        lemma_on_some_wiki(a, images, page_images, false, (item, file));
    }
}

} // verus!

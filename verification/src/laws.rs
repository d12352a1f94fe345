//! What holds of the library as a whole.
use crate::answer::{file_of_title, pair_texts};
use crate::filename::{normalized, valid_filename};
use crate::files::{
    count_of, files_of, holders, is_listed, lists_files, room_for, with_files, without_all,
    without_empty,
};
use crate::links::{grouped, item_id, link_texts, linked, those_in};
use crate::pagelist::{merge_error, with_entries, EntryView, PageList};
use crate::phase::{PageReply, PhaseView, Reply, RunResult, Step};
use crate::query::chunked;
use crate::run::{
    awaits, completes, finishes, found_after, lists_groups, next_wiki, proceeds, run_step,
};
use crate::text::{
    cuttable, decimal, joined, pieces, replaced, texts, trimmed, white_space, without_bytes,
};
use crate::wdfist::{
    five_or_used, flag, listed_names, present, refusal, rows_to_ignore, seeded, unwanted,
    without_pairs, FistView, MAX_FILE_COUNT_IN_RESULT_SET,
};
use vstd::prelude::*;
use vstd::utf8::*;

verus! {

broadcast use vstd::seq_lib::group_seq_properties;

/// A trimmed text neither starts nor ends with white space, and trimming it
/// again changes nothing.
pub proof fn trimmed_is_trimmed(s: Seq<char>)
    ensures
        trimmed(s).len() > 0 ==> !white_space(trimmed(s)[0]) && !white_space(trimmed(s).last()),
        trimmed(trimmed(s)) == trimmed(s),
    decreases s.len(),
{
    if s.len() > 0 && white_space(s[0]) {
        trimmed_is_trimmed(s.drop_first());
    } else if s.len() > 0 && white_space(s.last()) {
        trimmed_is_trimmed(s.drop_last());
    }
}

/// A normalized file name has no spaces, and normalizing it again changes
/// nothing.
pub proof fn normalized_is_normalized(name: Seq<char>)
    ensures
        !normalized(name).contains(' '),
        normalized(normalized(name)) == normalized(name),
{
    let t = trimmed(name);
    let n = normalized(name);
    trimmed_is_trimmed(name);
    if n.len() > 0 {
        assert(n[0] == t[0]);
        assert(n.last() == t.last());
    }
    assert(trimmed(n) == n);
    assert(replaced(n, ' ', '_') =~= n);
}

/// The pieces of a text hold no separator, and put together again they are the
/// text.
pub proof fn pieces_make_the_text(s: Seq<char>, separator: char)
    ensures
        joined(pieces(s, separator), separator) == s,
        pieces(s, separator).len() > 0,
        forall|i: int|
            0 <= i < pieces(s, separator).len() ==> !(#[trigger] pieces(s, separator)[i]).contains(
                separator,
            ),
    decreases s.len(),
{
    let all = pieces(s, separator);
    if s.len() > 0 {
        let before = pieces(s.drop_last(), separator);
        pieces_make_the_text(s.drop_last(), separator);
        assert(s =~= s.drop_last().push(s.last()));
        if s.last() == separator {
            assert(all.drop_last() =~= before);
            assert(joined(all, separator) =~= s);
        } else {
            assert(all.drop_last() =~= before.drop_last());
            assert(all.last() == before.last().push(s.last()));
            assert forall|i: int| 0 <= i < all.len() implies !(#[trigger] all[i]).contains(
                separator,
            ) by {
                if i < all.len() - 1 {
                    assert(all[i] == before[i]);
                } else {
                    let last = before[before.len() - 1];
                    assert(!last.contains(separator));
                    if all[i].contains(separator) {
                        let k = choose|k: int| 0 <= k < all[i].len() && all[i][k] == separator;
                        assert(last[k] == separator);
                    }
                }
            }
            if before.len() == 1 {
                assert(joined(all, separator) =~= s);
            } else {
                assert(joined(all, separator) =~= joined(before, separator).push(s.last()));
            }
        }
    }
}

/// What follows a number of ASCII characters is left when as many bytes are
/// cut, and they can be cut.
pub proof fn ascii_start_is_cut(start: Seq<char>, rest: Seq<char>)
    requires
        is_ascii_chars(start),
    ensures
        cuttable(start + rest, start.len() as int),
        without_bytes(start + rest, start.len() as int) == rest,
    decreases start.len(),
{
    let s = start + rest;
    let bytes = encode_utf8(s);
    encode_utf8_valid_utf8(s);
    if start.len() == 0 {
        assert(s =~= rest);
        assert(bytes.skip(0) =~= bytes);
        encode_utf8_decode_utf8(rest);
    } else {
        let tail = start.drop_first();
        assert(is_ascii_chars(tail)) by {
            assert forall|i: int| 0 <= i < tail.len() implies '\0' <= #[trigger] tail[i]
                <= '\u{7f}' by {
                assert(tail[i] == start[i + 1]);
            }
        }
        ascii_start_is_cut(tail, rest);
        assert(s.drop_first() =~= tail + rest);
        assert(s[0] == start[0]);
        encode_utf8_first_scalar(s);
        assert(encode_scalar(s[0] as u32).len() == 1);
        let after = encode_utf8(s.drop_first());
        assert(pop_first_scalar(bytes) =~= after);
        assert(is_char_boundary(bytes, start.len() as int) == is_char_boundary(
            after,
            start.len() - 1,
        ));
        assert(bytes.skip(start.len() as int) =~= after.skip(start.len() - 1));
    }
}

/// The id of an item without its leading letter is its number.
pub proof fn item_id_without_letter(number: u64)
    ensures
        cuttable(item_id(number), 1),
        without_bytes(item_id(number), 1) == decimal(number as nat),
{
    reveal_strlit("Q");
    assert(is_ascii_chars("Q"@));
    ascii_start_is_cut("Q"@, decimal(number as nat));
}

/// The file of a title that starts with `File:` is what follows, normalized.
pub proof fn file_of_prefixed_title(name: Seq<char>)
    ensures
        cuttable("File:"@ + name, 5),
        file_of_title("File:"@ + name) == normalized(name),
{
    reveal_strlit("File:");
    assert(is_ascii_chars("File:"@));
    ascii_start_is_cut("File:"@, name);
}

/// The elements of sequences, one sequence after the other.
pub open spec fn flat(chunks: Seq<Seq<Seq<char>>>) -> Seq<Seq<char>>
    decreases chunks.len(),
{
    if chunks.len() == 0 {
        Seq::empty()
    } else {
        chunks[0] + flat(chunks.drop_first())
    }
}

/// The chunks of a sequence make the sequence again. None is empty or longer
/// than the size, and only the last may be shorter.
pub proof fn chunks_make_the_sequence(s: Seq<Seq<char>>, size: nat)
    requires
        size > 0,
    ensures
        flat(chunked(s, size)) == s,
        forall|i: int|
            0 <= i < chunked(s, size).len() ==> 0 < (#[trigger] chunked(s, size)[i]).len() <= size,
        forall|i: int|
            0 <= i < chunked(s, size).len() - 1 ==> (#[trigger] chunked(s, size)[i]).len() == size,
    decreases s.len(),
{
    let chunks = chunked(s, size);
    if s.len() == 0 {
    } else if s.len() <= size {
        assert(chunks.drop_first() =~= Seq::empty());
        assert(flat(chunks.drop_first()) =~= Seq::empty());
        assert(flat(chunks) =~= s);
    } else {
        let rest = s.skip(size as int);
        chunks_make_the_sequence(rest, size);
        assert(chunks.drop_first() =~= chunked(rest, size));
        assert(chunks[0] =~= s.take(size as int));
        assert(flat(chunks) =~= s);
        assert forall|i: int| 0 <= i < chunks.len() implies 0 < (#[trigger] chunks[i]).len()
            <= size by {
            if i > 0 {
                assert(chunks[i] == chunked(rest, size)[i - 1]);
            }
        }
        assert forall|i: int| 0 <= i < chunks.len() - 1 implies (#[trigger] chunks[i]).len()
            == size by {
            if i > 0 {
                assert(chunks[i] == chunked(rest, size)[i - 1]);
            }
        }
    }
}

/// Which entry a page has after entries have been added: the one that it had,
/// or else the first that was added for it.
#[verifier::rlimit(50)]
pub proof fn first_entry_stays(
    m: Map<(int, Seq<char>), EntryView>,
    entries: Seq<EntryView>,
    title: (int, Seq<char>),
)
    ensures
        with_entries(m, entries).contains_key(title) <==> m.contains_key(title) || exists|i: int|
            0 <= i < entries.len() && (#[trigger] entries[i]).title == title,
        m.contains_key(title) ==> with_entries(m, entries)[title] == m[title],
        forall|i: int|
            0 <= i < entries.len() && (#[trigger] entries[i]).title == title && !m.contains_key(
                title,
            ) && (forall|j: int| 0 <= j < i ==> (#[trigger] entries[j]).title != title)
                ==> with_entries(m, entries)[title] == entries[i],
    decreases entries.len(),
{
    if entries.len() > 0 {
        let fewer = entries.drop_last();
        first_entry_stays(m, fewer, title);
        let last = entries.len() - 1;
        assert(forall|i: int| 0 <= i < last ==> fewer[i] == entries[i]);
        if exists|i: int| 0 <= i < entries.len() && (#[trigger] entries[i]).title == title {
            let i = choose|i: int| 0 <= i < entries.len() && (#[trigger] entries[i]).title == title;
            if i < last {
                assert(fewer[i].title == title);
            }
        }
        if exists|i: int| 0 <= i < fewer.len() && (#[trigger] fewer[i]).title == title {
            let i = choose|i: int| 0 <= i < fewer.len() && (#[trigger] fewer[i]).title == title;
            assert(entries[i].title == title);
        }
        assert forall|i: int|
            0 <= i < entries.len() && (#[trigger] entries[i]).title == title && !m.contains_key(
                title,
            ) && (forall|j: int| 0 <= j < i ==> (#[trigger] entries[j]).title != title) implies with_entries(
            m,
            entries,
        )[title] == entries[i] by {
            if i < last {
                assert(fewer[i].title == title);
                assert forall|j: int| 0 <= j < i implies (#[trigger] fewer[j]).title != title by {
                    assert(fewer[j] == entries[j]);
                }
            } else {
                assert(!with_entries(m, fewer).contains_key(title)) by {
                    if exists|k: int| 0 <= k < fewer.len() && (#[trigger] fewer[k]).title == title {
                        let k = choose|k: int|
                            0 <= k < fewer.len() && (#[trigger] fewer[k]).title == title;
                        assert(entries[k].title == title);
                    }
                }
            }
        }
    }
}

/// Files to ignore can be taken in from several lists in any order, and taking
/// in a list again changes nothing.
pub proof fn seeding_order_is_free(
    ignored: Set<Seq<char>>,
    allow_svg: bool,
    only_jpeg: bool,
    a: Seq<Seq<char>>,
    b: Seq<Seq<char>>,
)
    ensures
        seeded(seeded(ignored, allow_svg, only_jpeg, a), allow_svg, only_jpeg, b) == seeded(
            seeded(ignored, allow_svg, only_jpeg, b),
            allow_svg,
            only_jpeg,
            a,
        ),
        seeded(seeded(ignored, allow_svg, only_jpeg, a), allow_svg, only_jpeg, a) == seeded(
            ignored,
            allow_svg,
            only_jpeg,
            a,
        ),
{
    assert(seeded(seeded(ignored, allow_svg, only_jpeg, a), allow_svg, only_jpeg, b) =~= seeded(
        seeded(ignored, allow_svg, only_jpeg, b),
        allow_svg,
        only_jpeg,
        a,
    ));
    assert(seeded(seeded(ignored, allow_svg, only_jpeg, a), allow_svg, only_jpeg, a) =~= seeded(
        ignored,
        allow_svg,
        only_jpeg,
        a,
    ));
}

/// Ignoring more files, or allowing only JPEG files, makes no file valid;
/// allowing SVG files makes none invalid.
pub proof fn stricter_rules_accept_less(
    ignored: Set<Seq<char>>,
    more: Set<Seq<char>>,
    allow_svg: bool,
    only_jpeg: bool,
    name: Seq<char>,
)
    requires
        ignored.subset_of(more),
    ensures
        valid_filename(more, allow_svg, only_jpeg, name) ==> valid_filename(
            ignored,
            allow_svg,
            only_jpeg,
            name,
        ),
        valid_filename(ignored, allow_svg, true, name) ==> valid_filename(
            ignored,
            allow_svg,
            only_jpeg,
            name,
        ),
        valid_filename(ignored, allow_svg, only_jpeg, name) ==> valid_filename(
            ignored,
            true,
            only_jpeg,
            name,
        ),
{
    assert(more.contains(name) || !ignored.contains(name));
}

/// A file that is to be ignored is never valid.
pub proof fn ignored_is_invalid(s: FistView, names: Seq<Seq<char>>, i: int)
    requires
        0 <= i < names.len(),
    ensures
        !(FistView {
            ignored: seeded(s.ignored, s.allow_svg, s.only_jpeg, names),
            ..s
        }).valid(normalized(names[i])),
{
    let name = normalized(names[i]);
    let more = seeded(s.ignored, s.allow_svg, s.only_jpeg, names);
    assert(s.ignored.subset_of(more));
    if valid_filename(more, s.allow_svg, s.only_jpeg, name) {
        assert(normalized(names[i]) == name);
        assert(more.contains(name));
    }
}

/// How often a file is known for an item after files have been found: as often
/// as before, and, if it is valid, once more for each time that it was found.
pub proof fn found_files_are_counted(
    s: FistView,
    found: Seq<(Seq<char>, Seq<char>)>,
    item: Seq<char>,
    file: Seq<char>,
)
    requires
        room_for(s.item2files, found),
    ensures
        count_of(s.with_found(found).item2files, item, file) == count_of(s.item2files, item, file)
            + (if s.valid(file) {
            found.to_multiset().count((item, file))
        } else {
            0
        }),
    decreases found.len(),
{
    let m = s.item2files;
    if found.len() == 0 {
        found.to_multiset_ensures();
    } else {
        let fewer = found.drop_last();
        let last = found.last();
        fewer.to_multiset_ensures();
        assert(found =~= fewer.push(last));
        assert(found.to_multiset() =~= fewer.to_multiset().insert(last));
        assert(room_for(m, fewer)) by {
            assert forall|i: Seq<char>, f: Seq<char>| #[trigger] count_of(m, i, f)
                + fewer.to_multiset().count((i, f)) <= usize::MAX by {
                assert(count_of(m, i, f) + found.to_multiset().count((i, f)) <= usize::MAX);
            }
        }
        found_files_are_counted(s, fewer, item, file);
        assert(count_of(m, item, file) + found.to_multiset().count((item, file)) <= usize::MAX);
    }
}

/// Which files are known after files have been found: those that were known
/// before, and the valid ones among those found. An item is known if it was, or
/// if a valid file was found for it.
pub proof fn files_known_after(
    s: FistView,
    found: Seq<(Seq<char>, Seq<char>)>,
    item: Seq<char>,
    file: Seq<char>,
)
    ensures
        files_of(s.with_found(found).item2files, item).contains_key(file) <==> files_of(
            s.item2files,
            item,
        ).contains_key(file) || s.valid(file) && found.contains((item, file)),
        s.with_found(found).item2files.contains_key(item) <==> s.item2files.contains_key(item)
            || exists|f: Seq<char>| s.valid(f) && #[trigger] found.contains((item, f)),
    decreases found.len(),
{
    if found.len() > 0 {
        let fewer = found.drop_last();
        let last = found.last();
        files_known_after(s, fewer, item, file);
        assert(found =~= fewer.push(last));
        assert forall|x: (Seq<char>, Seq<char>)| #[trigger]
            found.contains(x) <==> fewer.contains(x) || x == last by {
            if fewer.contains(x) {
                let k = choose|k: int| 0 <= k < fewer.len() && fewer[k] == x;
                assert(found[k] == x);
            }
            assert(found[found.len() - 1] == last);
        }
        if s.valid(last.1) && last.0 == item {
            assert(found.contains((item, last.1)));
        }
        if exists|f: Seq<char>| s.valid(f) && #[trigger] fewer.contains((item, f)) {
            let f = choose|f: Seq<char>| s.valid(f) && #[trigger] fewer.contains((item, f));
            assert(found.contains((item, f)));
        }
        if exists|f: Seq<char>| s.valid(f) && #[trigger] found.contains((item, f)) {
            let f = choose|f: Seq<char>| s.valid(f) && #[trigger] found.contains((item, f));
            if (item, f) != last {
                assert(fewer.contains((item, f)));
            }
        }
    }
}

/// In which order files have been found makes no difference.
pub proof fn finding_order_is_free(
    s: FistView,
    a: Seq<(Seq<char>, Seq<char>)>,
    b: Seq<(Seq<char>, Seq<char>)>,
)
    requires
        room_for(s.item2files, a),
        a.to_multiset() == b.to_multiset(),
    ensures
        s.with_found(a) == s.with_found(b),
{
    a.to_multiset_ensures();
    b.to_multiset_ensures();
    assert(a.len() == b.len());
    assert forall|x: (Seq<char>, Seq<char>)| #[trigger] a.contains(x) <==> b.contains(x) by {
        assert(a.contains(x) <==> a.to_multiset().count(x) > 0);
        assert(b.contains(x) <==> b.to_multiset().count(x) > 0);
    }
    let ma = s.with_found(a).item2files;
    let mb = s.with_found(b).item2files;
    assert forall|item: Seq<char>| ma.contains_key(item) <==> mb.contains_key(item) by {
        files_known_after(s, a, item, Seq::empty());
        files_known_after(s, b, item, Seq::empty());
        if exists|f: Seq<char>| s.valid(f) && #[trigger] a.contains((item, f)) {
            let f = choose|f: Seq<char>| s.valid(f) && #[trigger] a.contains((item, f));
            assert(b.contains((item, f)));
        }
        if exists|f: Seq<char>| s.valid(f) && #[trigger] b.contains((item, f)) {
            let f = choose|f: Seq<char>| s.valid(f) && #[trigger] b.contains((item, f));
            assert(a.contains((item, f)));
        }
    }
    assert forall|item: Seq<char>| ma.contains_key(item) implies ma[item] == mb[item] by {
        let (fa, fb) = (ma[item], mb[item]);
        assert forall|file: Seq<char>| #[trigger] fa.dom().contains(file) <==> fb.dom().contains(
            file,
        ) by {
            files_known_after(s, a, item, file);
            files_known_after(s, b, item, file);
        }
        assert forall|file: Seq<char>| #[trigger] fa.dom().contains(file) implies fa[file]
            == fb[file] by {
            found_files_are_counted(s, a, item, file);
            found_files_are_counted(s, b, item, file);
            assert(count_of(ma, item, file) == count_of(mb, item, file));
        }
        assert(fa.dom() =~= fb.dom());
        assert(fa =~= fb);
    }
    assert(ma =~= mb);
}

/// A file that was to be ignored for an item is not known for it afterwards,
/// and no other file is lost.
pub proof fn ignored_pairs_are_gone(
    m: Map<Seq<char>, Map<Seq<char>, usize>>,
    rows: Seq<(Seq<char>, Seq<char>)>,
    item: Seq<char>,
    file: Seq<char>,
)
    ensures
        (exists|i: int|
            0 <= i < rows.len() && (#[trigger] rows[i]).0 == item && normalized(rows[i].1) == file)
            ==> !files_of(without_pairs(m, rows), item).contains_key(file),
        !(exists|i: int|
            0 <= i < rows.len() && (#[trigger] rows[i]).0 == item && normalized(rows[i].1) == file)
            ==> count_of(without_pairs(m, rows), item, file) == count_of(m, item, file),
        files_of(without_pairs(m, rows), item).contains_key(file) ==> files_of(
            m,
            item,
        ).contains_key(file),
    decreases rows.len(),
{
    if rows.len() > 0 {
        let fewer = rows.drop_last();
        ignored_pairs_are_gone(m, fewer, item, file);
        let before = without_pairs(m, fewer);
        let (i, f) = (rows.last().0, normalized(rows.last().1));
        assert(forall|k: int| 0 <= k < fewer.len() ==> fewer[k] == rows[k]);
        assert(rows[rows.len() - 1] == rows.last());
        if before.contains_key(i) && before[i].remove(f) == Map::<Seq<char>, usize>::empty() {
            if i == item && file != f {
                assert(!before[i].remove(f).contains_key(file));
                assert(!before[i].contains_key(file));
            }
        }
        if exists|k: int|
            0 <= k < fewer.len() && (#[trigger] fewer[k]).0 == item && normalized(fewer[k].1)
                == file {
            let k = choose|k: int|
                0 <= k < fewer.len() && (#[trigger] fewer[k]).0 == item && normalized(fewer[k].1)
                    == file;
            assert(rows[k].0 == item);
        }
        if exists|k: int|
            0 <= k < rows.len() && (#[trigger] rows[k]).0 == item && normalized(rows[k].1) == file {
            let k = choose|k: int|
                0 <= k < rows.len() && (#[trigger] rows[k]).0 == item && normalized(rows[k].1)
                    == file;
            if k < fewer.len() {
                assert(fewer[k].0 == item);
            }
        }
    }
}

proof fn lemma_fewer_holders(
    m: Map<Seq<char>, Map<Seq<char>, usize>>,
    fewer: Map<Seq<char>, Map<Seq<char>, usize>>,
    file: Seq<char>,
)
    requires
        m.dom().finite(),
        forall|item: Seq<char>| #[trigger]
            fewer.contains_key(item) && fewer[item].contains_key(file) ==> m.contains_key(item)
                && m[item].contains_key(file),
    ensures
        holders(fewer, file).finite(),
        holders(fewer, file).len() <= holders(m, file).len(),
{
    vstd::set_lib::lemma_len_subset(holders(m, file), m.dom());
    vstd::set_lib::lemma_len_subset(holders(fewer, file), holders(m, file));
}

/// What a search comes to: every item in it has files, no file was unknown
/// before; if there is a limit, no file is listed for too many items; and if
/// files that items use are not wanted, there is none of them.
#[verifier::rlimit(50)]
pub proof fn result_is_filtered(s: FistView, used: Seq<Seq<char>>, post: FistView, out: Step)
    requires
        s.item2files.dom().finite(),
        completes(s, used, post, out),
    ensures
        forall|item: Seq<char>| #[trigger]
            post.item2files.contains_key(item) ==> post.item2files[item] != Map::<
                Seq<char>,
                usize,
            >::empty(),
        forall|item: Seq<char>, file: Seq<char>|
            post.item2files.contains_key(item) && #[trigger] post.item2files[item].contains_key(
                file,
            ) ==> {
                &&& s.item2files.contains_key(item)
                &&& s.item2files[item].contains_key(file)
                &&& post.item2files[item][file] == s.item2files[item][file]
            },
        flag(s.params, "wdf_max_five_results"@) ==> forall|file: Seq<char>|
            (#[trigger] holders(post.item2files, file)).len() < MAX_FILE_COUNT_IN_RESULT_SET,
        flag(s.params, "wdf_only_files_not_on_wd"@) ==> forall|file: Seq<char>| #[trigger]
            used.contains(file) ==> !is_listed(post.item2files, file),
{
    let m = s.item2files;
    let p = post.item2files;
    let gone = unwanted(m, s.params, used);
    if exists|file: Seq<char>| is_listed(m, file) {
        assert forall|file: Seq<char>| flag(s.params, "wdf_max_five_results"@) implies (
        #[trigger] holders(p, file)).len() < MAX_FILE_COUNT_IN_RESULT_SET by {
            lemma_fewer_holders(m, p, file);
            if gone.contains(file) {
                assert(holders(p, file) =~= Set::empty());
            } else if !is_listed(m, file) {
                assert(holders(m, file) =~= Set::empty()) by {
                    assert forall|item: Seq<char>| !holders(m, file).contains(item) by {
                        assert(!(m.contains_key(item) && m[item].contains_key(file)));
                    }
                }
            }
        }
    } else {
        assert forall|item: Seq<char>| m.contains_key(item) implies #[trigger] m[item] == Map::<
            Seq<char>,
            usize,
        >::empty() by {
            assert forall|file: Seq<char>| !m[item].contains_key(file) by {
                assert(!is_listed(m, file));
                assert(m.contains_key(item));
            }
            assert(m[item] =~= Map::<Seq<char>, usize>::empty());
        }
        assert(p =~= Map::<Seq<char>, Map<Seq<char>, usize>>::empty());
        assert forall|file: Seq<char>| (#[trigger] holders(p, file)).len()
            < MAX_FILE_COUNT_IN_RESULT_SET by {
            assert(holders(p, file) =~= Set::empty());
        }
    }
}

/// Taking out the unwanted files a second time changes nothing.
pub proof fn filtering_again_changes_nothing(
    m: Map<Seq<char>, Map<Seq<char>, usize>>,
    params: Map<Seq<char>, Seq<char>>,
    used: Seq<Seq<char>>,
)
    requires
        m.dom().finite(),
    ensures
        five_or_used(five_or_used(m, params, used), params, used) == five_or_used(m, params, used),
        without_empty(without_empty(m)) == without_empty(m),
{
    assert(without_empty(without_empty(m)) =~= without_empty(m));
    let once = five_or_used(m, params, used);
    let gone = unwanted(m, params, used);
    let more = unwanted(once, params, used);
    if exists|file: Seq<char>| is_listed(m, file) {
        assert forall|item: Seq<char>| #[trigger] once.contains_key(item) implies once[item]
            =~= once[item].remove_keys(more) by {
            assert forall|file: Seq<char>| #[trigger] once[item].contains_key(
                file,
            ) implies !more.contains(file) by {
                assert(m.contains_key(item) && m[item].contains_key(file));
                assert(is_listed(m, file));
                lemma_fewer_holders(m, once, file);
                assert(!gone.contains(file));
            }
        }
        assert(without_empty(without_all(once, more)) =~= once);
    }
}

/// How far a search is from its end: by what it has asked for, then by how
/// much is pending, then by whether page images are still to be asked for.
pub open spec fn distance(phase: PhaseView) -> (nat, nat, nat) {
    match phase {
        PhaseView::IgnorePage => (11, 0, 0),
        PhaseView::IgnoreDatabase => (10, 0, 0),
        PhaseView::Items => (9, 0, 0),
        PhaseView::LanguageLinks => (8, 0, 0),
        PhaseView::ImageLinks(work) => (7, work.pending.len(), 1),
        PhaseView::PageImages(work, _) => (7, work.pending.len(), 0),
        PhaseView::Coordinates => (6, 0, 0),
        PhaseView::Labels => (4, 0, 0),
        PhaseView::Search(work) => (
            if work.nearby {
                5
            } else {
                3
            },
            work.pending.len(),
            0,
        ),
        PhaseView::IgnoredFiles => (2, 0, 0),
        PhaseView::UsedFiles => (1, 0, 0),
        PhaseView::Idle => (0, 0, 0),
    }
}

/// Whether a distance is less than another.
pub open spec fn nearer(a: (nat, nat, nat), b: (nat, nat, nat)) -> bool {
    ||| a.0 < b.0
    ||| a.0 == b.0 && a.1 < b.1
    ||| a.0 == b.0 && a.1 == b.1 && a.2 < b.2
}

/// With every reply a search that has begun comes nearer to its end, whatever
/// the reply says, so that it asks for a limited number of things.
pub proof fn search_comes_to_an_end(s: FistView, reply: Reply, post: FistView, out: Step)
    requires
        s.phase !is Idle,
        run_step(s, reply, post, out),
    ensures
        nearer(distance(post.phase), distance(s.phase)),
{
}

/// A search has nothing left to wait for exactly when it is over. It never
/// changes the parameters, forgets no file that is to be ignored, and sets the
/// rules for files only when it begins.
pub proof fn search_keeps_its_rules(s: FistView, reply: Reply, post: FistView, out: Step)
    requires
        run_step(s, reply, post, out),
    ensures
        out is Done <==> post.phase is Idle,
        post.params == s.params,
        s.ignored.subset_of(post.ignored),
        s.phase is Idle ==> post.allow_svg == flag(s.params, "wdf_allow_svg"@) && post.only_jpeg
            == flag(s.params, "wdf_only_jpeg"@),
        s.phase !is Idle ==> post.allow_svg == s.allow_svg && post.only_jpeg == s.only_jpeg,
        s.phase !is IgnorePage && s.phase !is IgnoreDatabase ==> post.ignored == s.ignored,
        s.phase !is Items ==> post.items == s.items,
{
}

/// A search that fails has not counted the files of the source that failed:
/// what it knows of files is what it knew before the reply. Only files to
/// ignore may be gone, where a batch of them was refused.
pub proof fn failed_source_adds_nothing(s: FistView, reply: Reply, post: FistView, out: Step)
    requires
        run_step(s, reply, post, out),
        out matches Step::Done(Err(_)),
    ensures
        s.phase !is IgnoredFiles ==> post.item2files == s.item2files,
        forall|item: Seq<char>, file: Seq<char>| #[trigger]
            files_of(post.item2files, item).contains_key(file) ==> files_of(
                s.item2files,
                item,
            ).contains_key(file),
{
    if s.phase is IgnoredFiles {
        if let Reply::IgnoredFiles(Ok(batches)) = reply {
            assert forall|item: Seq<char>, file: Seq<char>| #[trigger]
                files_of(post.item2files, item).contains_key(file) implies files_of(
                s.item2files,
                item,
            ).contains_key(file) by {
                let rows = rows_to_ignore(s.items, batches@);
                ignored_pairs_are_gone(s.item2files, rows, item, file);
            }
        }
    }
}

/// Whether the parameters name a source of files.
pub open spec fn names_a_source(params: Map<Seq<char>, Seq<char>>) -> bool {
    ||| flag(params, "wdf_langlinks"@)
    ||| flag(params, "wdf_coords"@)
    ||| flag(params, "wdf_search_commons"@)
}

/// Whether a search is about to turn to a source of files, or in the middle of
/// one.
pub open spec fn at_a_source(phase: PhaseView) -> bool {
    ||| phase is LanguageLinks
    ||| phase is ImageLinks
    ||| phase is PageImages
    ||| phase is Coordinates
    ||| phase is Labels
    ||| phase is Search
}

/// Whether all files that a search knows are valid and have been found, and
/// there are none before it is known which items qualify, nor without a source
/// of files.
pub open spec fn sound(s: FistView) -> bool {
    &&& forall|item: Seq<char>, file: Seq<char>| #[trigger]
        files_of(s.item2files, item).contains_key(file) ==> s.valid(file) && count_of(
            s.item2files,
            item,
            file,
        ) > 0
    &&& s.item2files.dom().finite()
    &&& s.phase is IgnorePage || s.phase is IgnoreDatabase || s.phase is Items ==> s.item2files
        == Map::<Seq<char>, Map<Seq<char>, usize>>::empty()
    &&& !names_a_source(s.params) ==> s.item2files == Map::<
        Seq<char>,
        Map<Seq<char>, usize>,
    >::empty() && !at_a_source(s.phase)
}

proof fn lemma_finite_with(
    m: Map<Seq<char>, Map<Seq<char>, usize>>,
    pairs: Seq<(Seq<char>, Seq<char>)>,
    ignored: Set<Seq<char>>,
    allow_svg: bool,
    only_jpeg: bool,
)
    requires
        m.dom().finite(),
    ensures
        with_files(m, pairs, ignored, allow_svg, only_jpeg).dom().finite(),
    decreases pairs.len(),
{
    if pairs.len() > 0 {
        lemma_finite_with(m, pairs.drop_last(), ignored, allow_svg, only_jpeg);
    }
}

/// Taking files from items makes no new items.
pub proof fn lemma_finite_without(
    m: Map<Seq<char>, Map<Seq<char>, usize>>,
    rows: Seq<(Seq<char>, Seq<char>)>,
)
    requires
        m.dom().finite(),
    ensures
        without_pairs(m, rows).dom().finite(),
        without_pairs(m, rows).dom().subset_of(m.dom()),
    decreases rows.len(),
{
    if rows.len() > 0 {
        lemma_finite_without(m, rows.drop_last());
    }
}

proof fn lemma_completed(s: FistView, used: Seq<Seq<char>>, post: FistView, out: Step)
    requires
        s.item2files.dom().finite(),
        completes(s, used, post, out),
    ensures
        post.item2files.dom().finite(),
        post.item2files.dom().subset_of(s.item2files.dom()),
        forall|item: Seq<char>, file: Seq<char>| #[trigger]
            files_of(post.item2files, item).contains_key(file) ==> files_of(
                s.item2files,
                item,
            ).contains_key(file) && count_of(post.item2files, item, file) == count_of(
                s.item2files,
                item,
                file,
            ),
{
    vstd::set_lib::lemma_len_subset(post.item2files.dom(), s.item2files.dom());
}

/// There is always room for no files.
pub proof fn lemma_room_for_none(m: Map<Seq<char>, Map<Seq<char>, usize>>)
    ensures
        room_for(m, Seq::empty()),
{
    Seq::<(Seq<char>, Seq<char>)>::empty().to_multiset_ensures();
}

proof fn lemma_proceeding_keeps_files(s: FistView, source: nat, post: FistView, out: Step)
    requires
        proceeds(s, source, post, out),
    ensures
        post == (FistView { phase: post.phase, ..s }),
{
}

proof fn lemma_found_is_valid(
    s: FistView,
    found: Seq<(Seq<char>, Seq<char>)>,
    error: Option<Seq<char>>,
    source: nat,
    post: FistView,
    out: Step,
)
    requires
        sound(s),
        s.phase is Idle,
        names_a_source(s.params),
        error is None ==> room_for(s.item2files, found),
        finishes(s, found, error, source, post, out),
    ensures
        sound(post),
{
    if error is None {
        lemma_proceeding_keeps_files(s.with_found(found), source, post, out);
        lemma_finite_with(s.item2files, found, s.ignored, s.allow_svg, s.only_jpeg);
        assert forall|item: Seq<char>, file: Seq<char>| #[trigger]
            files_of(post.item2files, item).contains_key(file) implies post.valid(file)
            && count_of(post.item2files, item, file) > 0 by {
            files_known_after(s, found, item, file);
            found_files_are_counted(s, found, item, file);
            found.to_multiset_ensures();
        }
    }
}

/// A search that begins without files, and knows only valid ones that have been
/// found, never comes to know others, and none without a source of files.
#[verifier::rlimit(50)]
pub proof fn files_stay_valid(s: FistView, reply: Reply, post: FistView, out: Step)
    requires
        awaits(s, reply),
        run_step(s, reply, post, out),
        sound(s),
        s.phase is Idle ==> s.item2files == Map::<Seq<char>, Map<Seq<char>, usize>>::empty(),
    ensures
        sound(post),
{
    let over = FistView { phase: PhaseView::Idle, ..s };
    assert(sound(over));
    match (s.phase, reply) {
        (PhaseView::Items, Reply::Rows(Ok(rows))) => {
            if rows@.len() > 0 {
                lemma_proceeding_keeps_files(
                    FistView { items: texts(rows@), ..over },
                    0,
                    post,
                    out,
                );
            }
        },
        (PhaseView::LanguageLinks, Reply::Links(Ok(rows))) => {
            let jobs = choose|jobs: Seq<(Seq<char>, Seq<(Seq<char>, Seq<char>)>)>|
                lists_groups(jobs, grouped(link_texts(rows@))) && #[trigger] next_wiki(
                    over,
                    jobs,
                    Seq::empty(),
                    None,
                    post,
                    out,
                );
            if jobs.len() == 0 {
                lemma_room_for_none(s.item2files);
                lemma_found_is_valid(over, Seq::empty(), None, 1, post, out);
            }
        },
        (PhaseView::ImageLinks(work), Reply::Pairs(Err(e))) => {
            if work.pending.len() == 0 {
                lemma_found_is_valid(over, work.found, Some(e@), 1, post, out);
            }
        },
        (PhaseView::ImageLinks(work), Reply::Pairs(Ok(rows))) => {
            if work.pending.len() == 0 && !flag(s.params, "wdf_only_page_images"@) {
                let found = work.found + linked(pair_texts(rows@), work.page2q);
                lemma_found_is_valid(over, found, work.error, 1, post, out);
            }
        },
        (PhaseView::PageImages(work, page_file), Reply::Pairs(Err(e))) => {
            if work.pending.len() == 0 {
                lemma_found_is_valid(over, work.found, Some(e@), 1, post, out);
            }
        },
        (PhaseView::PageImages(work, page_file), Reply::Pairs(Ok(rows))) => {
            if work.pending.len() == 0 {
                let kept = those_in(pair_texts(rows@), page_file);
                let found = work.found + linked(kept, work.page2q);
                lemma_found_is_valid(over, found, work.error, 1, post, out);
            }
        },
        (PhaseView::Coordinates, Reply::Coordinates(Ok(rows))) => {
            if rows@.len() == 0 {
                lemma_room_for_none(s.item2files);
                lemma_found_is_valid(over, Seq::empty(), None, 2, post, out);
            }
        },
        (PhaseView::Labels, Reply::Pairs(Ok(rows))) => {
            if rows@.len() == 0 {
                lemma_room_for_none(s.item2files);
                lemma_found_is_valid(over, Seq::empty(), None, 3, post, out);
            }
        },
        (PhaseView::Search(work), Reply::Search(reply)) => {
            if work.pending.len() == 0 {
                let error = if work.no_api || reply is NoApi {
                    Some("Can't get Commons API"@)
                } else {
                    None
                };
                let source: nat = if work.nearby {
                    2
                } else {
                    3
                };
                lemma_found_is_valid(over, found_after(work, reply), error, source, post, out);
            }
        },
        (PhaseView::IgnoredFiles, Reply::IgnoredFiles(Ok(batches))) => {
            let rows = rows_to_ignore(s.items, batches@);
            let then = FistView { item2files: without_pairs(s.item2files, rows), ..over };
            lemma_finite_without(s.item2files, rows);
            if out is Done && refusal(s.items, batches@) is None {
                lemma_completed(then, Seq::empty(), post, out);
            }
            assert forall|item: Seq<char>, file: Seq<char>| #[trigger]
                files_of(post.item2files, item).contains_key(file) implies post.valid(file)
                && count_of(post.item2files, item, file) > 0 by {
                ignored_pairs_are_gone(s.item2files, rows, item, file);
                assert(files_of(then.item2files, item).contains_key(file));
                assert(files_of(s.item2files, item).contains_key(file));
            }
            if !names_a_source(s.params) {
                assert(post.item2files =~= Map::<Seq<char>, Map<Seq<char>, usize>>::empty());
            }
        },
        (PhaseView::UsedFiles, Reply::Rows(Ok(rows))) => {
            lemma_completed(over, texts(rows@), post, out);
            if !names_a_source(s.params) {
                assert(post.item2files =~= Map::<Seq<char>, Map<Seq<char>, usize>>::empty());
            }
        },
        _ => {},
    }
}

/// Whether the states are those of a search, from the first to the last, that is
/// given the replies, which it awaits, and answers with the steps.
pub open spec fn course(states: Seq<FistView>, replies: Seq<Reply>, steps: Seq<Step>) -> bool {
    &&& states.len() == replies.len() + 1
    &&& steps.len() == replies.len()
    &&& forall|i: int|
        0 <= i < replies.len() ==> awaits(states[i], #[trigger] replies[i]) && run_step(
            states[i],
            replies[i],
            states[i + 1],
            steps[i],
        )
}

proof fn lemma_course_is_sound(
    states: Seq<FistView>,
    replies: Seq<Reply>,
    steps: Seq<Step>,
    i: int,
)
    requires
        course(states, replies, steps),
        states[0].phase is Idle,
        states[0].item2files == Map::<Seq<char>, Map<Seq<char>, usize>>::empty(),
        forall|k: int| 0 < k < replies.len() ==> (#[trigger] states[k]).phase !is Idle,
        0 <= i <= replies.len(),
    ensures
        sound(states[i]),
        states[i].params == states[0].params,
    decreases i,
{
    if i > 0 {
        lemma_course_is_sound(states, replies, steps, i - 1);
        let reply = replies[i - 1];
        files_stay_valid(states[i - 1], reply, states[i], steps[i - 1]);
    }
}

/// What a search from its beginning to a result comes to, whatever it was told:
/// it lists what it knows in the end; every item listed has files; all files
/// are valid, so that none is one to ignore, and each has been found at least
/// once; without a source of files, nothing is listed; and if there is a limit,
/// no file is listed for too many items.
pub proof fn search_lists_good_files(
    states: Seq<FistView>,
    replies: Seq<Reply>,
    steps: Seq<Step>,
    result: RunResult,
)
    requires
        course(states, replies, steps),
        replies.len() > 0,
        states[0].phase is Idle,
        states[0].item2files == Map::<Seq<char>, Map<Seq<char>, usize>>::empty(),
        forall|k: int| 0 < k < replies.len() ==> (#[trigger] states[k]).phase !is Idle,
        steps.last() == Step::Done(Ok(result)),
    ensures
        lists_files(result.data@, states.last().item2files),
        forall|item: Seq<char>| #[trigger]
            states.last().item2files.contains_key(item) ==> states.last().item2files[item]
                != Map::<Seq<char>, usize>::empty(),
        forall|item: Seq<char>, file: Seq<char>| #[trigger]
            files_of(states.last().item2files, item).contains_key(file) ==> {
                &&& states.last().valid(file)
                &&& !states.last().ignored.contains(file)
                &&& states.last().item2files[item][file] >= 1
            },
        !names_a_source(states[0].params) ==> states.last().item2files == Map::<
            Seq<char>,
            Map<Seq<char>, usize>,
        >::empty() && result.data@.len() == 0,
        flag(states.last().params, "wdf_max_five_results"@) ==> forall|file: Seq<char>|
            (#[trigger] holders(states.last().item2files, file)).len()
                < MAX_FILE_COUNT_IN_RESULT_SET,
{
    let n = replies.len();
    let (s, reply, post, out) = (states[n - 1], replies[n - 1], states[n as int], steps[n - 1]);
    lemma_course_is_sound(states, replies, steps, n - 1);
    lemma_course_is_sound(states, replies, steps, n as int);
    assert(run_step(s, reply, post, out));
    let over = FistView { phase: PhaseView::Idle, ..s };
    match (s.phase, reply) {
        (PhaseView::IgnoredFiles, Reply::IgnoredFiles(Ok(batches))) => {
            let rows = rows_to_ignore(s.items, batches@);
            lemma_finite_without(s.item2files, rows);
            result_is_filtered(
                FistView { item2files: without_pairs(s.item2files, rows), ..over },
                Seq::empty(),
                post,
                out,
            );
        },
        (PhaseView::UsedFiles, Reply::Rows(Ok(rows))) => {
            result_is_filtered(over, texts(rows@), post, out);
        },
        _ => {
            assert(post.item2files =~= Map::<Seq<char>, Map<Seq<char>, usize>>::empty());
            assert forall|file: Seq<char>| (#[trigger] holders(post.item2files, file)).len()
                < MAX_FILE_COUNT_IN_RESULT_SET by {
                assert(holders(post.item2files, file) =~= Set::empty());
            }
        },
    }
    if !names_a_source(states[0].params) && result.data@.len() > 0 {
        assert(post.item2files.contains_key(result.data@[0].0@));
    }
}

/// Whether the files to ignore are named as they are compared.
pub open spec fn ignored_normalized(s: FistView) -> bool {
    forall|name: Seq<char>| #[trigger] s.ignored.contains(name) ==> normalized(name) == name
}

/// Whether the files to ignore would be valid otherwise.
pub open spec fn ignored_valid(s: FistView) -> bool {
    forall|name: Seq<char>| #[trigger]
        s.ignored.contains(name) ==> valid_filename(Set::empty(), s.allow_svg, s.only_jpeg, name)
}

/// The names of files to ignore are normalized, and stay so. The files would be
/// valid otherwise, and that stays so too, unless a search that knows files to
/// ignore begins, with other rules.
pub proof fn ignored_names_are_in_order(s: FistView, reply: Reply, post: FistView, out: Step)
    requires
        ignored_normalized(s),
        run_step(s, reply, post, out),
    ensures
        ignored_normalized(post),
        ignored_valid(s) && (s.phase !is Idle || s.ignored == Set::<Seq<char>>::empty())
            ==> ignored_valid(post),
{
    assert forall|name: Seq<char>| #[trigger] post.ignored.contains(name) implies normalized(name)
        == name by {
        if !s.ignored.contains(name) {
            let names = match (s.phase, reply) {
                (PhaseView::IgnorePage, Reply::IgnorePage(PageReply::Text(t))) => listed_names(t@),
                (PhaseView::IgnoreDatabase, Reply::IgnoreDatabase(Ok(rows))) => present(rows@),
                _ => Seq::empty(),
            };
            let i = choose|i: int| 0 <= i < names.len() && normalized(#[trigger] names[i]) == name;
            normalized_is_normalized(names[i]);
        }
    }
    if ignored_valid(s) && (s.phase !is Idle || s.ignored == Set::<Seq<char>>::empty()) {
        assert forall|name: Seq<char>| #[trigger] post.ignored.contains(name) implies valid_filename(
            Set::empty(),
            post.allow_svg,
            post.only_jpeg,
            name,
        ) by {
            if s.ignored.contains(name) {
                assert(s.phase !is Idle);
            }
        }
    }
}

/// What two lists have in common and what only one of them has make that list
/// again, and no page is in both parts.
pub proof fn merges_part_a_list(
    a: Map<(int, Seq<char>), EntryView>,
    b: Map<(int, Seq<char>), EntryView>,
)
    ensures
        a.dom().intersect(b.dom()).union(a.remove_keys(b.dom()).dom()) == a.dom(),
        a.dom().intersect(b.dom()).disjoint(a.remove_keys(b.dom()).dom()),
        b.dom().union(a.remove_keys(b.dom()).dom()) == a.dom().union(b.dom()),
{
    assert(a.dom().intersect(b.dom()).union(a.remove_keys(b.dom()).dom()) =~= a.dom());
    assert(b.dom().union(a.remove_keys(b.dom()).dom()) =~= a.dom().union(b.dom()));
}

/// One list can be merged into another exactly when the other can be merged
/// into it.
pub proof fn merging_is_mutual(a: PageList, b: PageList)
    ensures
        merge_error(a, Some(b)) is None <==> merge_error(b, Some(a)) is None,
{
}

} // verus!

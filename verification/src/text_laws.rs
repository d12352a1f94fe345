//! What texts come to, character by character.
use crate::answer::file_of_title;
use crate::filename::normalized;
use crate::links::item_id;
use crate::text::{
    cuttable, decimal, pieces, replaced, trimmed, white_space, without_bytes,
};
use crate::wdfist::{flag, listed_names, without_bullets};
use vstd::prelude::*;
use vstd::utf8::*;

verus! {

broadcast use vstd::seq_lib::group_seq_properties;

/// Whether the characters from `start` up to `end` are what is left of a text
/// without the white space around it.
pub open spec fn is_core(s: Seq<char>, start: int, end: int) -> bool {
    &&& 0 <= start <= end <= s.len()
    &&& forall|i: int| 0 <= i < start ==> white_space(#[trigger] s[i])
    &&& forall|i: int| end <= i < s.len() ==> white_space(#[trigger] s[i])
    &&& start < end ==> !white_space(s[start]) && !white_space(s[end - 1])
}

/// Trimming leaves a stretch of the text: only white space is lost, only at the
/// ends, and all of it.
#[verifier::rlimit(50)]
pub proof fn trimmed_is_the_core(s: Seq<char>) -> (core: (int, int))
    ensures
        is_core(s, core.0, core.1),
        trimmed(s) == s.subrange(core.0, core.1),
    decreases s.len(),
{
    if s.len() > 0 && white_space(s[0]) {
        let rest = s.drop_first();
        let (a, b) = trimmed_is_the_core(rest);
        assert forall|i: int| 0 <= i < a + 1 implies white_space(#[trigger] s[i]) by {
            if i > 0 {
                assert(rest[i - 1] == s[i]);
            }
        }
        assert forall|i: int| b + 1 <= i < s.len() implies white_space(#[trigger] s[i]) by {
            assert(rest[i - 1] == s[i]);
        }
        if a < b {
            assert(rest[a] == s[a + 1]);
            assert(rest[b - 1] == s[b]);
        }
        assert(rest.subrange(a, b) =~= s.subrange(a + 1, b + 1));
        (a + 1, b + 1)
    } else if s.len() > 0 && white_space(s.last()) {
        let rest = s.drop_last();
        let (a, b) = trimmed_is_the_core(rest);
        assert forall|i: int| 0 <= i < a implies white_space(#[trigger] s[i]) by {
            assert(rest[i] == s[i]);
        }
        assert forall|i: int| b <= i < s.len() implies white_space(#[trigger] s[i]) by {
            if i < rest.len() {
                assert(rest[i] == s[i]);
            }
        }
        if a < b {
            assert(rest[a] == s[a]);
            assert(rest[b - 1] == s[b - 1]);
        }
        assert(rest.subrange(a, b) =~= s.subrange(a, b));
        (a, b)
    } else {
        assert(s.subrange(0, s.len() as int) =~= s);
        (0, s.len() as int)
    }
}

/// The normal form of a file name is a stretch of it without white space at its
/// ends, in which each space, and nothing else, has become an underscore.
#[verifier::rlimit(50)]
pub proof fn normalized_turns_spaces(name: Seq<char>) -> (core: (int, int))
    ensures
        is_core(name, core.0, core.1),
        normalized(name).len() == core.1 - core.0,
        forall|i: int|
            0 <= i < normalized(name).len() ==> #[trigger] normalized(name)[i] == (if name[core.0
                + i] == ' ' {
                '_'
            } else {
                name[core.0 + i]
            }),
{
    trimmed_is_the_core(name)
}

/// Whether a parameter says something: it has a value with a character that is
/// no white space.
pub open spec fn says_something(params: Map<Seq<char>, Seq<char>>, name: Seq<char>) -> bool {
    params.contains_key(name) && exists|i: int|
        0 <= i < params[name].len() && !white_space(#[trigger] params[name][i])
}

/// A parameter is set exactly if it says something.
pub proof fn set_parameters_say_something(params: Map<Seq<char>, Seq<char>>, name: Seq<char>)
    ensures
        flag(params, name) <==> says_something(params, name),
{
    if params.contains_key(name) {
        let value = params[name];
        let (a, b) = trimmed_is_the_core(value);
        if a < b {
            assert(!white_space(value[a]));
        } else {
            assert forall|i: int| 0 <= i < value.len() implies white_space(#[trigger] value[i]) by {}
        }
    }
}

/// The number that digits stand for.
pub open spec fn number_of(digits: Seq<char>) -> int
    decreases digits.len(),
{
    if digits.len() == 0 {
        0
    } else {
        10 * number_of(digits.drop_last()) + (digits.last() as int - '0' as int)
    }
}

/// A number written in decimal consists of digits, stands for the number, and
/// has no leading zero unless it is zero.
pub proof fn decimal_stands_for_the_number(n: nat)
    ensures
        decimal(n).len() > 0,
        forall|i: int| 0 <= i < decimal(n).len() ==> '0' <= #[trigger] decimal(n)[i] <= '9',
        number_of(decimal(n)) == n,
        n > 0 ==> decimal(n)[0] != '0',
    decreases n,
{
    let all = decimal(n);
    if n < 10 {
        assert(all.drop_last() =~= Seq::empty());
        assert(number_of(all.drop_last()) == 0);
    } else {
        decimal_stands_for_the_number(n / 10);
        assert(all.drop_last() =~= decimal(n / 10));
        assert(all[0] == decimal(n / 10)[0]);
    }
}

/// The id of an item is a capital Q and the digits that stand for its number.
pub proof fn item_ids_name_numbers(number: u64)
    ensures
        item_id(number).len() > 1,
        item_id(number)[0] == 'Q',
        forall|i: int|
            1 <= i < item_id(number).len() ==> '0' <= #[trigger] item_id(number)[i] <= '9',
        number_of(item_id(number).skip(1)) == number,
        number > 0 ==> item_id(number)[1] != '0',
{
    reveal_strlit("Q");
    decimal_stands_for_the_number(number as nat);
    assert(item_id(number).skip(1) =~= decimal(number as nat));
    assert forall|i: int| 1 <= i < item_id(number).len() implies '0' <= #[trigger] item_id(
        number,
    )[i] <= '9' by {
        assert(item_id(number)[i] == decimal(number as nat)[i - 1]);
    }
    assert(item_id(number)[1] == decimal(number as nat)[0]);
}

/// What follows a number of characters is left when as many bytes are cut as
/// they take, and they can be cut.
#[verifier::rlimit(50)]
pub proof fn start_is_cut(start: Seq<char>, rest: Seq<char>)
    ensures
        cuttable(start + rest, encode_utf8(start).len() as int),
        without_bytes(start + rest, encode_utf8(start).len() as int) == rest,
    decreases start.len(),
{
    let s = start + rest;
    let bytes = encode_utf8(s);
    let n = encode_utf8(start).len() as int;
    encode_utf8_valid_utf8(s);
    if start.len() == 0 {
        assert(s =~= rest);
        assert(bytes.skip(0) =~= bytes);
        encode_utf8_decode_utf8(rest);
    } else {
        let tail = start.drop_first();
        start_is_cut(tail, rest);
        assert(s.drop_first() =~= tail + rest);
        assert(s[0] == start[0]);
        encode_utf8_first_scalar(s);
        encode_utf8_first_scalar(start);
        let width = encode_scalar(s[0] as u32).len() as int;
        let after = encode_utf8(s.drop_first());
        assert(pop_first_scalar(bytes) =~= after);
        assert(n == width + encode_utf8(tail).len());
        assert(is_char_boundary(bytes, n) == is_char_boundary(after, n - width));
        assert(bytes.skip(n) =~= after.skip(n - width));
    }
}

/// The file of a title is what follows its first five bytes, normalized,
/// whatever they hold.
pub proof fn file_follows_five_bytes(start: Seq<char>, name: Seq<char>)
    requires
        encode_utf8(start).len() == 5,
    ensures
        cuttable(start + name, 5),
        file_of_title(start + name) == normalized(name),
{
    start_is_cut(start, name);
}

/// Whether the characters from `start` up to `end` are a whole line of a text:
/// there is no line feed among them, and one, or the end of the text, on either
/// side.
pub open spec fn is_line(s: Seq<char>, start: int, end: int) -> bool {
    &&& 0 <= start <= end <= s.len()
    &&& forall|i: int| start <= i < end ==> #[trigger] s[i] != '\n'
    &&& start > 0 ==> s[start - 1] == '\n'
    &&& end < s.len() ==> s[end] == '\n'
}

#[verifier::rlimit(50)]
proof fn lemma_pieces_are_lines(s: Seq<char>, k: int) -> (line: (int, int))
    requires
        0 <= k < pieces(s, '\n').len(),
    ensures
        is_line(s, line.0, line.1),
        pieces(s, '\n')[k] == s.subrange(line.0, line.1),
        k == pieces(s, '\n').len() - 1 <==> line.1 == s.len(),
    decreases s.len(),
{
    let all = pieces(s, '\n');
    if s.len() == 0 {
        assert(s.subrange(0, 0) =~= s);
        (0, 0)
    } else {
        let rest = s.drop_last();
        let before = pieces(rest, '\n');
        crate::laws::pieces_make_the_text(rest, '\n');
        assert(forall|i: int| 0 <= i < rest.len() ==> rest[i] == s[i]);
        if s.last() == '\n' {
            if k == all.len() - 1 {
                assert(s.subrange(s.len() as int, s.len() as int) =~= Seq::empty());
                (s.len() as int, s.len() as int)
            } else {
                let (a, b) = lemma_pieces_are_lines(rest, k);
                assert(all[k] == before[k]);
                assert(rest.subrange(a, b) =~= s.subrange(a, b));
                (a, b)
            }
        } else {
            let (a, b) = lemma_pieces_are_lines(rest, k);
            if k == all.len() - 1 {
                assert(before[k] == before.last());
                assert(all[k] == before.last().push(s.last()));
                assert(s.subrange(a, s.len() as int) =~= rest.subrange(a, b).push(s.last()));
                (a, s.len() as int)
            } else {
                assert(all[k] == before[k]);
                assert(rest.subrange(a, b) =~= s.subrange(a, b));
                (a, b)
            }
        }
    }
}

#[verifier::rlimit(50)]
proof fn lemma_lines_are_pieces(s: Seq<char>, start: int, end: int) -> (k: int)
    requires
        is_line(s, start, end),
    ensures
        0 <= k < pieces(s, '\n').len(),
        pieces(s, '\n')[k] == s.subrange(start, end),
        end == s.len() <==> k == pieces(s, '\n').len() - 1,
    decreases s.len(),
{
    let all = pieces(s, '\n');
    if s.len() == 0 {
        assert(s.subrange(0, 0) =~= s);
        0
    } else {
        let rest = s.drop_last();
        let before = pieces(rest, '\n');
        crate::laws::pieces_make_the_text(rest, '\n');
        assert(forall|i: int| 0 <= i < rest.len() ==> rest[i] == s[i]);
        if end < s.len() {
            let k = lemma_lines_are_pieces(rest, start, end);
            assert(rest.subrange(start, end) =~= s.subrange(start, end));
            if s.last() == '\n' {
                assert(all[k] == before[k]);
            } else {
                assert(end < rest.len());
                assert(all[k] == before[k]);
            }
            k
        } else if s.last() == '\n' {
            assert(start == end) by {
                if start < end {
                    assert(s[end - 1] == '\n');
                }
            }
            assert(s.subrange(start, end) =~= Seq::empty());
            all.len() - 1
        } else {
            if start == s.len() {
                assert(s[start - 1] == '\n');
            }
            let k = lemma_lines_are_pieces(rest, start, end - 1);
            assert(all[k] == before[k].push(s.last()));
            assert(s.subrange(start, end) =~= rest.subrange(start, end - 1).push(s.last()));
            k
        }
    }
}

proof fn lemma_bullets(line: Seq<char>) -> (c: int)
    ensures
        0 <= c <= line.len(),
        forall|i: int| 0 <= i < c ==> #[trigger] line[i] == ' ' || line[i] == '*',
        c < line.len() ==> line[c] != ' ' && line[c] != '*',
        without_bullets(line) == line.skip(c),
    decreases line.len(),
{
    if line.len() > 0 && (line[0] == ' ' || line[0] == '*') {
        let rest = line.drop_first();
        let c = lemma_bullets(rest);
        assert forall|i: int| 0 <= i < c + 1 implies #[trigger] line[i] == ' ' || line[i]
            == '*' by {
            if i > 0 {
                assert(rest[i - 1] == line[i]);
            }
        }
        if c < rest.len() {
            assert(rest[c] == line[c + 1]);
        }
        assert(rest.skip(c) =~= line.skip(c + 1));
        c + 1
    } else {
        assert(line.skip(0) =~= line);
        0
    }
}

/// Whether a text stands on a line of its own in another, from the first
/// character of the line that is neither a space nor an asterisk to its end.
pub open spec fn stands_on_a_line(s: Seq<char>, start: int, from: int, end: int) -> bool {
    &&& is_line(s, start, end)
    &&& start <= from <= end
    &&& forall|i: int| start <= i < from ==> #[trigger] s[i] == ' ' || s[i] == '*'
    &&& from < end ==> s[from] != ' ' && s[from] != '*'
}

/// Whether a line of a text holds the name, after spaces and asterisks.
pub open spec fn is_on_a_line(s: Seq<char>, name: Seq<char>) -> bool {
    exists|start: int, from: int, end: int|
        #[trigger] stands_on_a_line(s, start, from, end) && s.subrange(from, end) == name
}

/// Every line of a list names a file, the first and the last line too, and
/// nothing else does.
pub proof fn every_line_names_a_file(wikitext: Seq<char>, name: Seq<char>)
    ensures
        listed_names(wikitext).contains(name) <==> is_on_a_line(wikitext, name),
{
    let lines = pieces(wikitext, '\n');
    let names = listed_names(wikitext);
    if is_on_a_line(wikitext, name) {
        let (start, from, end) = choose|start: int, from: int, end: int|
            #[trigger] stands_on_a_line(wikitext, start, from, end) && wikitext.subrange(from, end)
                == name;
        let k = lemma_lines_are_pieces(wikitext, start, end);
        let line = lines[k];
        let c = lemma_bullets(line);
        if c < from - start {
            assert(line[c] == wikitext[start + c]);
        }
        if from - start < c {
            assert(line[from - start] == wikitext[from]);
        }
        assert(line.skip(c) =~= wikitext.subrange(from, end));
        assert(names[k] == without_bullets(line));
    }
    if names.contains(name) {
        let k = choose|k: int| 0 <= k < names.len() && names[k] == name;
        let line = lines[k];
        let (start, end) = lemma_pieces_are_lines(wikitext, k);
        let c = lemma_bullets(line);
        assert(names[k] == without_bullets(line));
        assert forall|i: int| start <= i < start + c implies #[trigger] wikitext[i] == ' '
            || wikitext[i] == '*' by {
            assert(line[i - start] == wikitext[i]);
        }
        if c < line.len() {
            assert(line[c] == wikitext[start + c]);
        }
        assert(line.skip(c) =~= wikitext.subrange(start + c, end));
        assert(stands_on_a_line(wikitext, start, start + c, end));
    }
}

/// Replacing a character turns each of its occurrences, and nothing else.
pub proof fn every_occurrence_is_replaced(s: Seq<char>, from: char, to: char, i: int)
    requires
        0 <= i < s.len(),
    ensures
        replaced(s, from, to).len() == s.len(),
        s[i] == from ==> replaced(s, from, to)[i] == to,
        s[i] != from ==> replaced(s, from, to)[i] == s[i],
{
}

/// A text can be cut exactly after a start that takes that many bytes.
pub proof fn cuts_are_after_a_start(s: Seq<char>, n: int) -> (start: Seq<char>)
    requires
        cuttable(s, n),
    ensures
        encode_utf8(start).len() == n,
        s == start + without_bytes(s, n),
{
    let bytes = encode_utf8(s);
    encode_utf8_valid_utf8(s);
    encode_utf8_decode_utf8(s);
    valid_utf8_split(bytes, n);
    decode_utf8_split(bytes, n);
    let head = bytes.subrange(0, n);
    decode_utf8_encode_utf8(head);
    assert(bytes.skip(n) =~= bytes.subrange(n, bytes.len() as int));
    lemma_boundary_is_inside(bytes, n);
    decode_utf8(head)
}

proof fn lemma_boundary_is_inside(bytes: Seq<u8>, n: int)
    requires
        valid_utf8(bytes),
        is_char_boundary(bytes, n),
    ensures
        0 <= n <= bytes.len(),
{
}

} // verus!

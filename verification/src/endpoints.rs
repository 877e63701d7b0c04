//! Reading the list of RPC endpoints.

use crate::latency::texts;
use vstd::prelude::*;
use vstd::string::StrSliceExecFns;

verus! {

/// The character between two endpoints.
pub const SEPARATOR: char = ',';

/// Whether a character has the Unicode property `White_Space`.
pub open spec fn white_space(c: char) -> bool {
    ||| '\u{9}' <= c <= '\u{d}'
    ||| c == '\u{20}'
    ||| c == '\u{85}'
    ||| c == '\u{a0}'
    ||| c == '\u{1680}'
    ||| '\u{2000}' <= c <= '\u{200a}'
    ||| c == '\u{2028}'
    ||| c == '\u{2029}'
    ||| c == '\u{202f}'
    ||| c == '\u{205f}'
    ||| c == '\u{3000}'
}

/// `char::is_whitespace`: whether the character has the Unicode property
/// `White_Space`. The contract lists the characters that have it.
pub assume_specification[ char::is_whitespace ](c: char) -> (white: bool)
    ensures
        white == white_space(c),
;

/// The pieces of `text` between separators. One that has none is one piece.
pub open spec fn pieces(text: Seq<char>) -> Seq<Seq<char>>
    decreases text.len(),
{
    if text.len() == 0 {
        seq![text]
    } else {
        let before = pieces(text.drop_last());
        if text.last() == SEPARATOR {
            before.push(Seq::empty())
        } else {
            before.drop_last().push(before.last().push(text.last()))
        }
    }
}

/// `text` without the blanks at its start.
pub open spec fn trimmed_start(text: Seq<char>, blank: spec_fn(char) -> bool) -> Seq<char>
    decreases text.len(),
{
    if text.len() > 0 && blank(text[0]) {
        trimmed_start(text.drop_first(), blank)
    } else {
        text
    }
}

/// `text` without the blanks at its end.
pub open spec fn trimmed_end(text: Seq<char>, blank: spec_fn(char) -> bool) -> Seq<char>
    decreases text.len(),
{
    if text.len() > 0 && blank(text.last()) {
        trimmed_end(text.drop_last(), blank)
    } else {
        text
    }
}

/// `text` without the blanks around it.
pub open spec fn trimmed(text: Seq<char>, blank: spec_fn(char) -> bool) -> Seq<char> {
    trimmed_end(trimmed_start(text, blank), blank)
}

/// The endpoints that `text` lists: its pieces, trimmed.
pub open spec fn endpoints(text: Seq<char>, blank: spec_fn(char) -> bool) -> Seq<Seq<char>> {
    Seq::new(pieces(text).len(), |i: int| trimmed(pieces(text)[i], blank))
}

/// Whether a character is white space.
pub open spec fn is_white() -> spec_fn(char) -> bool {
    |c: char| white_space(c)
}

/// Whether a character is one of `blanks`.
pub open spec fn is_one_of(blanks: Seq<char>) -> spec_fn(char) -> bool {
    |c: char| blanks.contains(c)
}

/// Whether an endpoint has a text.
pub open spec fn is_named() -> spec_fn(Seq<char>) -> bool {
    |endpoint: Seq<char>| endpoint.len() > 0
}

/// The characters of `text`.
fn characters(text: &str) -> (chars: Vec<char>)
    ensures
        chars@ == text@,
{
    let mut chars: Vec<char> = Vec::new();
    for c in it: text.chars()
        invariant
            chars@ == text@.take(it.index()),
            it.seq() == text@,
    {
        chars.push(c);
        assert(chars@ =~= text@.take(it.index() + 1));
    }
    assert(chars@ =~= text@);
    chars
}

/// Whether `c` is one of `blanks`.
fn is_blank(blanks: &Vec<char>, c: char) -> (yes: bool)
    ensures
        yes == is_one_of(blanks@)(c),
{
    let mut i: usize = 0;
    while i < blanks.len()
        invariant
            i <= blanks@.len(),
            forall|k: int| 0 <= k < i ==> blanks@[k] != c,
        decreases blanks@.len() - i,
    {
        if blanks[i] == c {
            assert(blanks@[i as int] == c);
            return true;
        }
        i += 1;
    }
    false
}

/// The part of `chars` from `from` to `to` without the blanks around it: where it
/// starts and where it ends.
fn trim_range(chars: &Vec<char>, blanks: &Vec<char>, from: usize, to: usize) -> (range: (
    usize,
    usize,
))
    requires
        from <= to <= chars@.len(),
    ensures
        from <= range.0 <= range.1 <= to,
        chars@.subrange(range.0 as int, range.1 as int) == trimmed(
            chars@.subrange(from as int, to as int),
            is_one_of(blanks@),
        ),
{
    let ghost blank = is_one_of(blanks@);
    let mut start = from;
    while start < to && is_blank(blanks, chars[start])
        invariant
            blank == is_one_of(blanks@),
            from <= start <= to <= chars@.len(),
            trimmed_start(chars@.subrange(start as int, to as int), blank) == trimmed_start(
                chars@.subrange(from as int, to as int),
                blank,
            ),
        decreases to - start,
    {
        assert(chars@.subrange(start as int, to as int).drop_first() =~= chars@.subrange(
            start + 1,
            to as int,
        ));
        start += 1;
    }
    let mut end = to;
    while end > start && is_blank(blanks, chars[end - 1])
        invariant
            blank == is_one_of(blanks@),
            start <= end <= to <= chars@.len(),
            trimmed_end(chars@.subrange(start as int, end as int), blank) == trimmed_end(
                chars@.subrange(start as int, to as int),
                blank,
            ),
        decreases end,
    {
        assert(chars@.subrange(start as int, end as int).drop_last() =~= chars@.subrange(
            start as int,
            end - 1,
        ));
        end -= 1;
    }
    (start, end)
}

/// Splits a list of endpoints at its commas, and takes off each the `blanks`
/// around it.
pub fn split_endpoints(rpc_urls: &str, blanks: &Vec<char>) -> (urls: Vec<String>)
    ensures
        texts(urls@) == endpoints(rpc_urls@, is_one_of(blanks@)),
{
    let chars = characters(rpc_urls);
    let ghost text = rpc_urls@;
    let ghost blank = is_one_of(blanks@);
    let ghost mut done: Seq<Seq<char>> = Seq::empty();
    let mut urls: Vec<String> = Vec::new();
    let mut start: usize = 0;
    let mut i: usize = 0;
    assert(text.take(0) =~= Seq::<char>::empty());
    assert(pieces(text.take(0)) =~= done.push(text.subrange(0, 0)));
    while i < chars.len()
        invariant
            chars@ == text,
            text == rpc_urls@,
            blank == is_one_of(blanks@),
            start <= i <= chars@.len(),
            pieces(text.take(i as int)) == done.push(text.subrange(start as int, i as int)),
            urls@.len() == done.len(),
            forall|k: int|
                0 <= k < done.len() ==> (#[trigger] urls@[k])@ == trimmed(done[k], blank),
        decreases chars@.len() - i,
    {
        let ghost piece = text.subrange(start as int, i as int);
        assert(text.take(i + 1).drop_last() =~= text.take(i as int));
        assert(text.take(i + 1).last() == text[i as int]);
        if chars[i] == SEPARATOR {
            let (from, to) = trim_range(&chars, blanks, start, i);
            urls.push(rpc_urls.substring_char(from, to).to_string());
            proof {
                done = done.push(piece);
                assert(text.subrange(i + 1, i + 1) =~= Seq::<char>::empty());
            }
            start = i + 1;
        } else {
            assert(done.push(piece).drop_last() =~= done);
            assert(text.subrange(start as int, i + 1) =~= piece.push(text[i as int]));
        }
        i += 1;
    }
    let (from, to) = trim_range(&chars, blanks, start, i);
    urls.push(rpc_urls.substring_char(from, to).to_string());
    assert(text.take(i as int) =~= text);
    assert(texts(urls@) =~= endpoints(text, blank));
    urls
}

/// Reads the endpoints that `rpc_urls` lists, separated by commas, each without
/// the white space around it. An endpoint may be empty.
pub fn parse_endpoints(rpc_urls: &str) -> (urls: Vec<String>)
    ensures
        texts(urls@) == endpoints(rpc_urls@, is_white()),
{
    let chars = characters(rpc_urls);
    let mut blanks: Vec<char> = Vec::new();
    let mut i: usize = 0;
    while i < chars.len()
        invariant
            i <= chars@.len(),
            forall|k: int| 0 <= k < blanks@.len() ==> white_space(#[trigger] blanks@[k]),
            forall|k: int|
                0 <= k < i && white_space(#[trigger] chars@[k]) ==> blanks@.contains(chars@[k]),
        decreases chars@.len() - i,
    {
        let c = chars[i];
        let ghost before = blanks@;
        if c.is_whitespace() {
            blanks.push(c);
            assert(blanks@[before.len() as int] == c);
        }
        assert forall|k: int| 0 <= k < i + 1 && white_space(#[trigger] chars@[k]) implies
            blanks@.contains(chars@[k]) by {
            if k < i {
                let at = choose|at: int| 0 <= at < before.len() && before[at] == chars@[k];
                assert(blanks@[at] == chars@[k]);
            }
        }
        i += 1;
    }
    proof {
        let blank = is_one_of(blanks@);
        assert forall|k: int| 0 <= k < rpc_urls@.len() implies blank(#[trigger] rpc_urls@[k])
            == is_white()(rpc_urls@[k]) by {
            if blanks@.contains(rpc_urls@[k]) {
                let at = choose|at: int| 0 <= at < blanks@.len() && blanks@[at] == rpc_urls@[k];
                assert(white_space(blanks@[at]));
            }
        }
        lemma_same_endpoints(rpc_urls@, blank, is_white());
    }
    split_endpoints(rpc_urls, &blanks)
}

/// Where two notions of a blank agree on a text, they leave the same of it.
proof fn lemma_same_trimmed(
    text: Seq<char>,
    one: spec_fn(char) -> bool,
    other: spec_fn(char) -> bool,
)
    requires
        forall|k: int| 0 <= k < text.len() ==> one(#[trigger] text[k]) == other(text[k]),
    ensures
        trimmed_end(text, one) == trimmed_end(text, other),
        trimmed(text, one) == trimmed(text, other),
    decreases text.len(),
{
    if text.len() > 0 {
        assert forall|k: int| 0 <= k < text.len() - 1 implies one(#[trigger] text.drop_first()[k])
            == other(text.drop_first()[k]) by {
            assert(text.drop_first()[k] == text[k + 1]);
        }
        lemma_same_trimmed(text.drop_first(), one, other);
        assert forall|k: int| 0 <= k < text.len() - 1 implies one(#[trigger] text.drop_last()[k])
            == other(text.drop_last()[k]) by {
            assert(text.drop_last()[k] == text[k]);
        }
        lemma_same_trimmed(text.drop_last(), one, other);
        assert(one(text[0]) == other(text[0]));
        assert(one(text[text.len() - 1]) == other(text[text.len() - 1]));
    }
}

/// Where two notions of a blank agree on a text, it lists the same endpoints.
proof fn lemma_same_endpoints(
    text: Seq<char>,
    one: spec_fn(char) -> bool,
    other: spec_fn(char) -> bool,
)
    requires
        forall|k: int| 0 <= k < text.len() ==> one(#[trigger] text[k]) == other(text[k]),
    ensures
        endpoints(text, one) == endpoints(text, other),
{
    lemma_pieces_hold_the_text(text);
    assert forall|i: int| 0 <= i < pieces(text).len() implies trimmed(
        #[trigger] pieces(text)[i],
        one,
    ) == trimmed(pieces(text)[i], other) by {
        let piece = pieces(text)[i];
        assert forall|k: int| 0 <= k < piece.len() implies one(#[trigger] piece[k]) == other(
            piece[k],
        ) by {
            assert(text.contains(pieces(text)[i][k]));
            let at = choose|at: int| 0 <= at < text.len() && text[at] == piece[k];
            assert(one(text[at]) == other(text[at]));
        }
        lemma_same_trimmed(piece, one, other);
    }
    assert(endpoints(text, one) =~= endpoints(text, other));
}

/// Every character of a piece comes from the text.
proof fn lemma_pieces_hold_the_text(text: Seq<char>)
    ensures
        pieces(text).len() > 0,
        forall|i: int, k: int|
            0 <= i < pieces(text).len() && 0 <= k < pieces(text)[i].len() ==> text.contains(
                #[trigger] pieces(text)[i][k],
            ),
    decreases text.len(),
{
    if text.len() > 0 {
        let rest = text.drop_last();
        let before = pieces(rest);
        let after = pieces(text);
        lemma_pieces_hold_the_text(rest);
        assert forall|i: int, k: int|
            0 <= i < after.len() && 0 <= k < after[i].len() implies text.contains(
            #[trigger] after[i][k],
        ) by {
            if i < before.len() && k < before[i].len() {
                assert(rest.contains(before[i][k]));
                let at = choose|at: int| 0 <= at < rest.len() && rest[at] == before[i][k];
                assert(text[at] == before[i][k]);
            } else {
                assert(text[text.len() - 1] == after[i][k]);
            }
        }
    }
}

/// Reads the endpoints that `rpc_urls` lists, separated by commas, each without
/// the white space around it. Empty ones are left out.
pub fn parse_named_endpoints(rpc_urls: &str) -> (urls: Vec<String>)
    ensures
        texts(urls@) == endpoints(rpc_urls@, is_white()).filter(is_named()),
{
    let all = parse_endpoints(rpc_urls);
    let ghost listed = endpoints(rpc_urls@, is_white());
    let mut urls: Vec<String> = Vec::new();
    let mut i: usize = 0;
    proof {
        reveal(Seq::filter);
        assert(texts(urls@) =~= listed.take(0).filter(is_named()));
    }
    while i < all.len()
        invariant
            texts(all@) == listed,
            i <= all@.len(),
            texts(urls@) == listed.take(i as int).filter(is_named()),
        decreases all@.len() - i,
    {
        let ghost before = texts(urls@);
        proof {
            reveal(Seq::filter);
            assert(listed.take(i + 1).drop_last() =~= listed.take(i as int));
            assert(listed.take(i + 1).last() == all@[i as int]@);
        }
        if !all[i].as_str().is_empty() {
            urls.push(all[i].clone());
            assert(texts(urls@) =~= before.push(all@[i as int]@));
        }
        i += 1;
    }
    assert(listed.take(i as int) =~= listed);
    urls
}

/// `parts` with a separator between each two.
pub open spec fn joined(parts: Seq<Seq<char>>) -> Seq<char>
    decreases parts.len(),
{
    if parts.len() == 0 {
        Seq::empty()
    } else if parts.len() == 1 {
        parts[0]
    } else {
        joined(parts.drop_last()).push(SEPARATOR) + parts.last()
    }
}

/// The pieces of a text hold no separator, and joined by separators they are the
/// text.
pub proof fn law_pieces_join_to_the_text(text: Seq<char>)
    ensures
        pieces(text).len() > 0,
        joined(pieces(text)) == text,
        forall|i: int|
            0 <= i < pieces(text).len() ==> !(#[trigger] pieces(text)[i]).contains(SEPARATOR),
    decreases text.len(),
{
    if text.len() > 0 {
        let before = pieces(text.drop_last());
        let after = pieces(text);
        law_pieces_join_to_the_text(text.drop_last());
        if text.last() == SEPARATOR {
            assert(after.drop_last() =~= before);
            assert(joined(after) =~= text);
        } else {
            let last = before.last().push(text.last());
            assert(after.drop_last() =~= before.drop_last());
            assert forall|i: int| 0 <= i < after.len() implies !(#[trigger] after[i]).contains(
                SEPARATOR,
            ) by {
                if i == after.len() - 1 {
                    if last.contains(SEPARATOR) {
                        let k = choose|k: int| 0 <= k < last.len() && last[k] == SEPARATOR;
                        assert(before.last()[k] == SEPARATOR);
                    }
                } else {
                    assert(after[i] == before[i]);
                }
            }
            assert(after.last() == last);
            assert(joined(after) =~= joined(before).push(text.last()));
            assert(text =~= text.drop_last().push(text.last()));
        }
    } else {
        assert(joined(pieces(text)) =~= text);
    }
}

/// A trimmed text neither starts nor ends with a blank.
pub proof fn law_trimmed_has_no_blank_around(text: Seq<char>, blank: spec_fn(char) -> bool)
    ensures
        trimmed(text, blank).len() > 0 ==> !blank(trimmed(text, blank)[0]) && !blank(
            trimmed(text, blank).last(),
        ),
{
    lemma_trimmed_start(text, blank);
    lemma_trimmed_end(trimmed_start(text, blank), blank);
}

/// No blank is left at the start.
proof fn lemma_trimmed_start(text: Seq<char>, blank: spec_fn(char) -> bool)
    ensures
        trimmed_start(text, blank).len() > 0 ==> !blank(trimmed_start(text, blank)[0]),
    decreases text.len(),
{
    if text.len() > 0 && blank(text[0]) {
        lemma_trimmed_start(text.drop_first(), blank);
    }
}

/// No blank is left at the end, and the start is as it was.
proof fn lemma_trimmed_end(text: Seq<char>, blank: spec_fn(char) -> bool)
    ensures
        trimmed_end(text, blank).is_prefix_of(text),
        trimmed_end(text, blank).len() > 0 ==> !blank(trimmed_end(text, blank).last()),
    decreases text.len(),
{
    if text.len() > 0 && blank(text.last()) {
        lemma_trimmed_end(text.drop_last(), blank);
    }
}

/// The pieces on both sides of a separator come one after the other.
proof fn lemma_pieces_part_at_a_separator(left: Seq<char>, right: Seq<char>)
    ensures
        pieces(left.push(SEPARATOR) + right) == pieces(left) + pieces(right),
    decreases right.len(),
{
    let text = left.push(SEPARATOR) + right;
    lemma_pieces_hold_the_text(left);
    lemma_pieces_hold_the_text(right);
    if right.len() == 0 {
        assert(text =~= left.push(SEPARATOR));
        assert(text.drop_last() =~= left);
        assert(right =~= Seq::empty());
        assert(pieces(text) =~= pieces(left) + pieces(right));
    } else {
        let rest = right.drop_last();
        lemma_pieces_part_at_a_separator(left, rest);
        lemma_pieces_hold_the_text(rest);
        assert(text.drop_last() =~= left.push(SEPARATOR) + rest);
        assert(text.last() == right.last());
        let before = pieces(left);
        let behind = pieces(rest);
        assert(pieces(text.drop_last()) == before + behind);
        assert((before + behind).last() == behind.last());
        assert((before + behind).drop_last() =~= before + behind.drop_last());
        if right.last() == SEPARATOR {
            assert((before + behind).push(Seq::empty()) =~= before + behind.push(Seq::empty()));
        } else {
            let grown = behind.last().push(right.last());
            assert((before + behind).drop_last().push(grown) =~= before + behind.drop_last().push(
                grown,
            ));
        }
    }
}

/// A text without a separator is one piece.
proof fn lemma_one_piece(text: Seq<char>)
    requires
        !text.contains(SEPARATOR),
    ensures
        pieces(text) == seq![text],
    decreases text.len(),
{
    if text.len() > 0 {
        let rest = text.drop_last();
        assert forall|k: int| 0 <= k < rest.len() implies rest[k] != SEPARATOR by {
            assert(text.contains(text[k]));
        }
        lemma_one_piece(rest);
        assert(text.contains(text.last()));
        assert(rest.push(text.last()) =~= text);
        assert(pieces(text) =~= seq![text]);
    }
}

/// A comma parts a list of endpoints: those on its left come first, then those on its
/// right. What holds no comma is one endpoint.
pub proof fn law_comma_parts_the_endpoints(
    left: Seq<char>,
    right: Seq<char>,
    single: Seq<char>,
    blank: spec_fn(char) -> bool,
)
    requires
        forall|k: int| 0 <= k < single.len() ==> #[trigger] single[k] != ',',
    ensures
        endpoints(left.push(',') + right, blank) == endpoints(left, blank) + endpoints(
            right,
            blank,
        ),
        endpoints(single, blank) == seq![trimmed(single, blank)],
{
    lemma_pieces_part_at_a_separator(left, right);
    lemma_one_piece(single);
    assert(endpoints(left.push(',') + right, blank) =~= endpoints(left, blank) + endpoints(
        right,
        blank,
    ));
    assert(endpoints(single, blank) =~= seq![trimmed(single, blank)]);
}

/// What trimming leaves is the middle of a text: all that is before and behind it is
/// blank, and it neither starts nor ends with a blank. Of a text of blanks nothing is
/// left.
pub proof fn law_trimmed_is_the_middle(text: Seq<char>, blank: spec_fn(char) -> bool)
    ensures
        exists|from: int, to: int|
            #![trigger text.subrange(from, to)]
            {
                &&& 0 <= from <= to <= text.len()
                &&& trimmed(text, blank) == text.subrange(from, to)
                &&& forall|k: int|
                    0 <= k < from || to <= k < text.len() ==> blank(#[trigger] text[k])
                &&& from < to ==> !blank(text[from]) && !blank(text[to - 1])
            },
{
    let from = lemma_start_of_trimmed(text, blank);
    let rest = text.subrange(from, text.len() as int);
    let length = lemma_end_of_trimmed(rest, blank);
    let to = from + length;
    assert(rest.subrange(0, length) =~= text.subrange(from, to));
    assert forall|k: int| 0 <= k < from || to <= k < text.len() implies blank(
        #[trigger] text[k],
    ) by {
        if k >= to {
            assert(blank(rest[k - from]));
        }
    }
    if from < to {
        assert(rest[0] == text[from] && rest[length - 1] == text[to - 1]);
    }
}

/// Where a text starts once the blanks at its start are gone.
proof fn lemma_start_of_trimmed(text: Seq<char>, blank: spec_fn(char) -> bool) -> (from: int)
    ensures
        0 <= from <= text.len(),
        trimmed_start(text, blank) == text.subrange(from, text.len() as int),
        forall|k: int| 0 <= k < from ==> blank(#[trigger] text[k]),
        from < text.len() ==> !blank(text[from]),
    decreases text.len(),
{
    if text.len() > 0 && blank(text[0]) {
        let rest = text.drop_first();
        let from = lemma_start_of_trimmed(rest, blank);
        assert(rest.subrange(from, rest.len() as int) =~= text.subrange(
            from + 1,
            text.len() as int,
        ));
        assert forall|k: int| 0 <= k < from + 1 implies blank(#[trigger] text[k]) by {
            if k > 0 {
                assert(rest[k - 1] == text[k]);
            }
        }
        from + 1
    } else {
        assert(text.subrange(0, text.len() as int) =~= text);
        0
    }
}

/// Where a text ends once the blanks at its end are gone.
proof fn lemma_end_of_trimmed(text: Seq<char>, blank: spec_fn(char) -> bool) -> (to: int)
    ensures
        0 <= to <= text.len(),
        trimmed_end(text, blank) == text.subrange(0, to),
        forall|k: int| to <= k < text.len() ==> blank(#[trigger] text[k]),
        to > 0 ==> !blank(text[to - 1]),
    decreases text.len(),
{
    if text.len() > 0 && blank(text.last()) {
        let rest = text.drop_last();
        let to = lemma_end_of_trimmed(rest, blank);
        assert(rest.subrange(0, to) =~= text.subrange(0, to));
        assert forall|k: int| to <= k < text.len() implies blank(#[trigger] text[k]) by {
            if k < rest.len() {
                assert(rest[k] == text[k]);
            }
        }
        to
    } else {
        assert(text.subrange(0, text.len() as int) =~= text);
        text.len() as int
    }
}

/// What counts as a blank, and which endpoints have a name.
pub proof fn law_blanks_and_names(c: char, blanks: Seq<char>, endpoint: Seq<char>)
    ensures
        is_white()(c) <==> white_space(c),
        is_one_of(blanks)(c) <==> exists|i: int| 0 <= i < blanks.len() && #[trigger] blanks[i] == c,
        is_named()(endpoint) <==> endpoint.len() > 0,
{
}

} // verus!

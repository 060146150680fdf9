//! Text: comparing, cutting at bytes, splitting at separators and joining.
use vstd::prelude::*;
use vstd::utf8::{decode_utf8, encode_utf8, is_char_boundary};

verus! {

/// Whether two texts hold the same characters.
pub fn same_text(left: &str, right: &str) -> (same: bool)
    ensures
        same == (left@ == right@),
{
    let left_owned: String = left.to_owned();
    let right_owned: String = right.to_owned();
    left_owned == right_owned
}

/// Position `at` of the text's UTF-8 bytes is where a character begins, or the end.
pub open spec fn boundary(text: Seq<char>, at: int) -> bool {
    is_char_boundary(encode_utf8(text), at)
}

/// What stands before position `at` of the text's UTF-8 bytes.
pub open spec fn before_byte(text: Seq<char>, at: int) -> Seq<char> {
    decode_utf8(encode_utf8(text).subrange(0, at))
}

/// What stands from position `at` of the text's UTF-8 bytes on.
pub open spec fn from_byte(text: Seq<char>, at: int) -> Seq<char> {
    decode_utf8(encode_utf8(text).subrange(at, encode_utf8(text).len() as int))
}

/// After `count` characters of one byte each comes a boundary, and cutting there by bytes
/// is cutting there by characters.
pub proof fn lemma_cut_after_ascii(text: Seq<char>, count: int)
    requires
        0 <= count <= text.len(),
        forall|i: int| 0 <= i < count ==> '\0' <= #[trigger] text[i] <= '\u{7f}',
    ensures
        boundary(text, count),
        before_byte(text, count) == text.take(count),
        from_byte(text, count) == text.skip(count),
        encode_utf8(text).len() >= count,
    decreases count,
{
    broadcast use vstd::utf8::encode_utf8_valid_utf8;

    let bytes = encode_utf8(text);
    let head = text.take(count);
    let tail = text.skip(count);
    assert(text =~= head + tail);
    lemma_encode_concat(head, tail);
    assert(vstd::utf8::is_ascii_chars(head));
    vstd::utf8::is_ascii_chars_encode_utf8(head);
    assert(bytes.subrange(0, count) =~= encode_utf8(head));
    assert(bytes.subrange(count, bytes.len() as int) =~= encode_utf8(tail));
    vstd::utf8::encode_utf8_decode_utf8(head);
    vstd::utf8::encode_utf8_decode_utf8(tail);
    if count > 0 {
        let rest = text.drop_first();
        assert forall|i: int| 0 <= i < count - 1 implies '\0' <= #[trigger] rest[i]
            <= '\u{7f}' by {
            assert(rest[i] == text[i + 1]);
        }
        lemma_cut_after_ascii(rest, count - 1);
        vstd::utf8::encode_utf8_first_scalar(text);
        assert(vstd::utf8::pop_first_scalar(bytes) =~= encode_utf8(rest));
        assert(text[0] <= '\u{7f}');
    }
}

/// The encoding of two texts in a row is their encodings in a row.
proof fn lemma_encode_concat(left: Seq<char>, right: Seq<char>)
    ensures
        encode_utf8(left + right) == encode_utf8(left) + encode_utf8(right),
    decreases left.len(),
{
    if left.len() == 0 {
        assert(left + right =~= right);
        assert(encode_utf8(left) + encode_utf8(right) =~= encode_utf8(right));
    } else {
        lemma_encode_concat(left.drop_first(), right);
        assert((left + right).drop_first() =~= left.drop_first() + right);
        assert(encode_utf8(left + right) =~= encode_utf8(left) + encode_utf8(right));
    }
}

/// What stands before a byte position.
pub fn text_before(text: &str, at: usize) -> (part: &str)
    requires
        boundary(text@, at as int),
    ensures
        part@ == before_byte(text@, at as int),
{
    let (part, _) = text.split_at(at);
    proof {
        vstd::utf8::encode_utf8_decode_utf8(part@);
    }
    part
}

/// What stands from a byte position on.
pub fn text_from(text: &str, at: usize) -> (part: &str)
    requires
        boundary(text@, at as int),
    ensures
        part@ == from_byte(text@, at as int),
{
    let (_, part) = text.split_at(at);
    proof {
        vstd::utf8::encode_utf8_decode_utf8(part@);
    }
    part
}

/// The pieces of a text between the occurrences of a separator: each character joins the last
/// piece, and each separator begins a new one.
pub open spec fn split(text: Seq<char>, separator: char) -> Seq<Seq<char>>
    decreases text.len(),
{
    if text.len() == 0 {
        seq![Seq::<char>::empty()]
    } else {
        let pieces = split(text.drop_last(), separator);
        if text.last() == separator {
            pieces.push(Seq::<char>::empty())
        } else {
            pieces.drop_last().push(pieces.last().push(text.last()))
        }
    }
}

/// The texts in a row, with a separator between each two.
pub open spec fn join(parts: Seq<Seq<char>>, separator: Seq<char>) -> Seq<char>
    decreases parts.len(),
{
    if parts.len() == 0 {
        Seq::<char>::empty()
    } else if parts.len() == 1 {
        parts[0]
    } else {
        join(parts.drop_last(), separator) + separator + parts.last()
    }
}

/// A text always has a piece.
pub proof fn lemma_split_not_empty(text: Seq<char>, separator: char)
    ensures
        split(text, separator).len() > 0,
    decreases text.len(),
{
    if text.len() > 0 {
        lemma_split_not_empty(text.drop_last(), separator);
    }
}

/// A text without the separator is its own only piece.
pub proof fn lemma_split_whole(text: Seq<char>, separator: char)
    requires
        !text.contains(separator),
    ensures
        split(text, separator) == seq![text],
    decreases text.len(),
{
    if text.len() > 0 {
        let init = text.drop_last();
        assert forall|i: int| 0 <= i < init.len() implies init[i] != separator by {
            assert(text[i] == init[i]);
        }
        lemma_split_whole(init, separator);
        assert(text.last() != separator);
        assert(init.push(text.last()) =~= text);
        assert(split(text, separator) =~= seq![text]);
    } else {
        assert(text =~= Seq::<char>::empty());
    }
}

/// A separator between two texts splits them apart.
pub proof fn lemma_split_between(left: Seq<char>, separator: char, right: Seq<char>)
    ensures
        split(left.push(separator) + right, separator) == split(left, separator) + split(
            right,
            separator,
        ),
    decreases right.len(),
{
    let whole = left.push(separator) + right;
    lemma_split_not_empty(left, separator);
    lemma_split_not_empty(right, separator);
    if right.len() == 0 {
        assert(whole =~= left.push(separator));
        assert(whole.drop_last() =~= left);
        assert(split(whole, separator) =~= split(left, separator) + split(right, separator));
    } else {
        let init = right.drop_last();
        lemma_split_between(left, separator, init);
        lemma_split_not_empty(init, separator);
        assert(whole.drop_last() =~= left.push(separator) + init);
        assert(split(whole, separator) =~= split(left, separator) + split(right, separator));
    }
}

/// Joining texts that do not hold the separator, and splitting the result, gives them back.
pub proof fn law_split_undoes_join(parts: Seq<Seq<char>>, separator: char)
    requires
        parts.len() > 0,
        forall|i: int| 0 <= i < parts.len() ==> !(#[trigger] parts[i]).contains(separator),
    ensures
        split(join(parts, seq![separator]), separator) == parts,
    decreases parts.len(),
{
    if parts.len() == 1 {
        lemma_split_whole(parts[0], separator);
        assert(parts =~= seq![parts[0]]);
    } else {
        let init = parts.drop_last();
        assert forall|i: int| 0 <= i < init.len() implies !(#[trigger] init[i]).contains(
            separator,
        ) by {
            assert(init[i] == parts[i]);
        }
        law_split_undoes_join(init, separator);
        let front = join(init, seq![separator]);
        lemma_split_between(front, separator, parts.last());
        lemma_split_whole(parts.last(), separator);
        assert(front + seq![separator] + parts.last() =~= front.push(separator) + parts.last());
        assert(init + seq![parts.last()] =~= parts);
    }
}

/// The pieces of a text between the occurrences of a separator.
pub fn split_text(text: &str, separator: char) -> (pieces: Vec<String>)
    ensures
        pieces.deep_view() == split(text@, separator),
{
    let mut pieces: Vec<String> = Vec::new();
    let mut start: usize = 0;
    let mut end: usize = 0;
    let total: usize = text.unicode_len();
    proof {
        assert(text@.take(0) =~= Seq::<char>::empty());
        assert(text@.subrange(0, 0) =~= Seq::<char>::empty());
        assert(split(text@.take(0), separator) =~= pieces.deep_view().push(text@.subrange(0, 0)));
    }
    for c in it: text.chars()
        invariant
            it.seq() == text@,
            total == text@.len(),
            end == it.index(),
            start <= end <= total,
            split(text@.take(end as int), separator) == pieces.deep_view().push(
                text@.subrange(start as int, end as int),
            ),
    {
        let ghost seen = text@.take(end as int);
        let ghost grown = text@.take(end + 1);
        proof {
            assert(grown.drop_last() =~= seen);
            assert(grown.last() == c);
        }
        if c == separator {
            let piece = text.substring_char(start, end);
            let ghost before = pieces.deep_view();
            pieces.push(piece.to_owned());
            start = end + 1;
            proof {
                assert(pieces.deep_view() =~= before.push(piece@));
                assert(text@.subrange(start as int, end + 1) =~= Seq::<char>::empty());
            }
        } else {
            proof {
                assert(text@.subrange(start as int, end as int).push(c) =~= text@.subrange(
                    start as int,
                    end + 1,
                ));
                assert(split(grown, separator) =~= pieces.deep_view().push(
                    text@.subrange(start as int, end + 1),
                ));
            }
        }
        end += 1;
    }
    let ghost before = pieces.deep_view();
    let last = text.substring_char(start, end);
    pieces.push(last.to_owned());
    proof {
        assert(text@.take(end as int) =~= text@);
        assert(pieces.deep_view() =~= before.push(last@));
    }
    pieces
}

/// The texts in a row, with a separator between each two.
pub fn join_texts(parts: &Vec<String>, separator: &str) -> (text: String)
    ensures
        text@ == join(parts.deep_view(), separator@),
{
    let mut text: String = String::new();
    let mut i: usize = 0;
    proof {
        assert(parts.deep_view().take(0) =~= Seq::<Seq<char>>::empty());
    }
    while i < parts.len()
        invariant
            i <= parts@.len(),
            text@ == join(parts.deep_view().take(i as int), separator@),
        decreases parts@.len() - i,
    {
        let ghost grown = parts.deep_view().take(i + 1);
        proof {
            assert(grown.drop_last() =~= parts.deep_view().take(i as int));
            assert(grown.last() == parts@[i as int]@);
        }
        if i > 0 {
            text.append(separator);
        }
        text.append(parts[i].as_str());
        proof {
            if i == 0 {
                assert(text@ =~= parts@[0]@);
            }
        }
        i += 1;
    }
    proof {
        assert(parts.deep_view().take(i as int) =~= parts.deep_view());
    }
    text
}

/// A text is cut at a boundary of its bytes into two texts, whose bytes are those before the boundary
/// and those from it on, and which in a row are the text.
pub proof fn law_cut_at_a_boundary(text: Seq<char>, at: int)
    ensures
        boundary(text, at) == is_char_boundary(encode_utf8(text), at),
        boundary(text, at) ==> {
            &&& 0 <= at <= encode_utf8(text).len()
            &&& encode_utf8(before_byte(text, at)) == encode_utf8(text).take(at)
            &&& encode_utf8(from_byte(text, at)) == encode_utf8(text).skip(at)
            &&& text == before_byte(text, at) + from_byte(text, at)
        },
{
    broadcast use vstd::utf8::encode_utf8_valid_utf8;

    if boundary(text, at) {
        let bytes = encode_utf8(text);
        vstd::utf8::encode_utf8_decode_utf8(text);
        vstd::utf8::decode_utf8_split(bytes, at);
        vstd::utf8::valid_utf8_split(bytes, at);
        assert(bytes.subrange(0, at) =~= bytes.take(at));
        assert(bytes.subrange(at, bytes.len() as int) =~= bytes.skip(at));
        vstd::utf8::decode_utf8_encode_utf8(bytes.subrange(0, at));
        vstd::utf8::decode_utf8_encode_utf8(bytes.subrange(at, bytes.len() as int));
    }
}

/// Joining one more text puts the separator and the text behind; a single text stays as it is.
pub proof fn law_joining_one_more(parts: Seq<Seq<char>>, separator: Seq<char>, part: Seq<char>)
    ensures
        join(Seq::empty(), separator) == Seq::<char>::empty(),
        join(seq![part], separator) == part,
        parts.len() > 0 ==> join(parts.push(part), separator) == join(parts, separator) + separator
            + part,
{
    if parts.len() > 0 {
        assert(parts.push(part).drop_last() =~= parts);
    }
}

/// Splitting a text gives pieces without the separator which, joined by it, are the text again.
pub proof fn law_join_undoes_split(text: Seq<char>, separator: char)
    ensures
        split(text, separator).len() > 0,
        forall|i: int|
            0 <= i < split(text, separator).len() ==> !(#[trigger] split(
                text,
                separator,
            )[i]).contains(separator),
        join(split(text, separator), seq![separator]) == text,
    decreases text.len(),
{
    let pieces = split(text, separator);
    if text.len() == 0 {
        assert(pieces =~= seq![Seq::<char>::empty()]);
        assert(join(pieces, seq![separator]) =~= text);
    } else {
        let init = text.drop_last();
        let before = split(init, separator);
        law_join_undoes_split(init, separator);
        assert(text =~= init.push(text.last()));
        if text.last() == separator {
            law_joining_one_more(before, seq![separator], Seq::empty());
            assert(join(pieces, seq![separator]) =~= text);
            assert forall|i: int| 0 <= i < pieces.len() implies !(#[trigger] pieces[i]).contains(
                separator,
            ) by {
                if i < before.len() {
                    assert(pieces[i] == before[i]);
                }
            }
        } else {
            let front = before.drop_last();
            let last = before.last();
            let grown = last.push(text.last());
            assert(before =~= front.push(last));
            assert(pieces =~= front.push(grown));
            if front.len() == 0 {
                assert(before =~= seq![last]);
                assert(pieces =~= seq![grown]);
                law_joining_one_more(front, seq![separator], last);
                law_joining_one_more(front, seq![separator], grown);
            } else {
                law_joining_one_more(front, seq![separator], last);
                law_joining_one_more(front, seq![separator], grown);
                assert(join(pieces, seq![separator]) =~= join(before, seq![separator]).push(
                    text.last(),
                ));
            }
            assert forall|i: int| 0 <= i < pieces.len() implies !(#[trigger] pieces[i]).contains(
                separator,
            ) by {
                if i < front.len() {
                    assert(pieces[i] == before[i]);
                } else {
                    assert(!before[front.len() as int].contains(separator));
                    assert forall|j: int| 0 <= j < grown.len() implies grown[j] != separator by {
                        if j < last.len() {
                            assert(grown[j] == last[j]);
                            assert(last.contains(last[j]));
                        }
                    }
                }
            }
        }
    }
}

} // verus!

//! Splitting and joining of delimited text.

use vstd::prelude::*;
use vstd::string::*;

verus! {

/// The pieces of `s` that lie between the occurrences of `sep`, in order.
/// There is always at least one piece; a separator at either end, or two in
/// a row, give an empty piece.
pub open spec fn split(s: Seq<char>, sep: char) -> Seq<Seq<char>>
    decreases s.len(),
{
    if s.len() == 0 {
        seq![Seq::<char>::empty()]
    } else if s.last() == sep {
        split(s.drop_last(), sep).push(Seq::<char>::empty())
    } else {
        let head = split(s.drop_last(), sep);
        head.drop_last().push(head.last().push(s.last()))
    }
}

/// The pieces written one after another with `sep` between neighbours.
pub open spec fn join(pieces: Seq<Seq<char>>, sep: char) -> Seq<char>
    decreases pieces.len(),
{
    if pieces.len() == 0 {
        Seq::<char>::empty()
    } else if pieces.len() == 1 {
        pieces[0]
    } else {
        join(pieces.drop_last(), sep).push(sep) + pieces.last()
    }
}

/// Splitting always yields at least one piece.
pub proof fn lemma_split_nonempty(s: Seq<char>, sep: char)
    ensures
        split(s, sep).len() >= 1,
    decreases s.len(),
{
    if s.len() > 0 {
        lemma_split_nonempty(s.drop_last(), sep);
    }
}

/// No piece of a split holds the separator.
pub proof fn lemma_split_pieces_lack_separator(s: Seq<char>, sep: char)
    ensures
        forall|i: int| 0 <= i < split(s, sep).len() ==> !(#[trigger] split(s, sep)[i]).contains(sep),
    decreases s.len(),
{
    if s.len() > 0 {
        lemma_split_nonempty(s.drop_last(), sep);
        lemma_split_pieces_lack_separator(s.drop_last(), sep);
    }
}

/// Joining the pieces of a split with the same separator gives the text back.
pub proof fn lemma_join_split(s: Seq<char>, sep: char)
    ensures
        join(split(s, sep), sep) == s,
    decreases s.len(),
{
    if s.len() > 0 {
        let init = s.drop_last();
        let head = split(init, sep);
        lemma_split_nonempty(init, sep);
        lemma_join_split(init, sep);
        if s.last() == sep {
            let all = head.push(Seq::<char>::empty());
            assert(all.drop_last() == head);
            assert(join(all, sep) == join(head, sep).push(sep) + Seq::<char>::empty());
            assert(join(all, sep) == s);
        } else {
            let grown = head.last().push(s.last());
            let all = head.drop_last().push(grown);
            assert(all.drop_last() == head.drop_last());
            assert(init.push(s.last()) == s);
            if head.len() == 1 {
                assert(join(all, sep) == grown);
            } else {
                let front = join(head.drop_last(), sep).push(sep);
                assert(join(all, sep) == front + grown);
                assert(front + grown == (front + head.last()).push(s.last()));
            }
        }
    }
}

/// A text splits into more than one piece exactly when it holds the
/// separator; without one, the only piece is the text itself.
pub proof fn lemma_split_single(s: Seq<char>, sep: char)
    ensures
        split(s, sep).len() >= 2 <==> s.contains(sep),
        !s.contains(sep) ==> split(s, sep) == seq![s],
    decreases s.len(),
{
    if s.len() == 0 {
        assert(s == Seq::<char>::empty());
    } else {
        let init = s.drop_last();
        lemma_split_nonempty(init, sep);
        lemma_split_single(init, sep);
        if s.last() == sep {
            assert(s[s.len() - 1] == sep);
        } else {
            if init.contains(sep) {
                let i = choose|i: int| 0 <= i < init.len() && init[i] == sep;
                assert(s[i] == sep);
            }
            if s.contains(sep) {
                let i = choose|i: int| 0 <= i < s.len() && s[i] == sep;
                assert(init[i] == sep);
            } else {
                assert(init.push(s.last()) == s);
                assert(split(s, sep) == seq![s]);
            }
        }
    }
}

/// Splitting a text that ends in a separator and a last piece without one
/// gives the pieces of what stands before the separator, and the last piece.
pub proof fn lemma_split_append(front: Seq<char>, sep: char, piece: Seq<char>)
    requires
        !piece.contains(sep),
    ensures
        split(front.push(sep) + piece, sep) == split(front, sep).push(piece),
    decreases piece.len(),
{
    let whole = front.push(sep) + piece;
    if piece.len() == 0 {
        assert(whole == front.push(sep));
        assert(whole.drop_last() == front);
        assert(piece == Seq::<char>::empty());
    } else {
        let shorter = piece.drop_last();
        assert(piece[piece.len() - 1] != sep);
        assert forall|i: int| 0 <= i < shorter.len() implies shorter[i] != sep by {
            assert(piece[i] != sep);
        }
        lemma_split_append(front, sep, shorter);
        assert(whole.drop_last() == front.push(sep) + shorter);
        assert(whole.last() == piece.last());
        let head = split(front, sep).push(shorter);
        assert(head.drop_last() == split(front, sep));
        assert(shorter.push(piece.last()) == piece);
    }
}

/// Pieces that do not hold the separator are what splitting their join
/// gives: joining and splitting undo each other.
pub proof fn lemma_split_join(pieces: Seq<Seq<char>>, sep: char)
    requires
        pieces.len() >= 1,
        forall|i: int| 0 <= i < pieces.len() ==> !(#[trigger] pieces[i]).contains(sep),
    ensures
        split(join(pieces, sep), sep) == pieces,
    decreases pieces.len(),
{
    if pieces.len() == 1 {
        lemma_split_single(pieces[0], sep);
        assert(seq![pieces[0]] == pieces);
    } else {
        let front = pieces.drop_last();
        assert forall|i: int| 0 <= i < front.len() implies !(#[trigger] front[i]).contains(
            sep,
        ) by {
            assert(front[i] == pieces[i]);
        }
        lemma_split_join(front, sep);
        lemma_split_append(join(front, sep), sep, pieces.last());
        assert(front.push(pieces.last()) == pieces);
    }
}

/// Breaks `params` at every `sep` and returns the pieces in order.
pub fn parse_list(params: &String, sep: char) -> (pieces: Vec<String>)
    ensures
        pieces.deep_view() == split(params@, sep),
{
    let text = params.as_str();
    let n = text.unicode_len();
    let mut pieces: Vec<String> = Vec::new();
    let mut start: usize = 0;
    let mut i: usize = 0;
    proof {
        assert(text@.take(0) == Seq::<char>::empty());
        assert(pieces.deep_view() == Seq::<Seq<char>>::empty());
        assert(seq![Seq::<char>::empty()] == Seq::<Seq<char>>::empty().push(
            text@.subrange(0, 0),
        ));
    }
    while i < n
        invariant
            text@ == params@,
            n == text@.len(),
            start <= i <= n,
            split(text@.take(i as int), sep) == pieces.deep_view().push(
                text@.subrange(start as int, i as int),
            ),
        decreases n - i,
    {
        let c = text.get_char(i);
        proof {
            let before = text@.take(i as int);
            let after = text@.take(i as int + 1);
            assert(after.drop_last() == before);
            assert(after.last() == c);
        }
        if c == sep {
            let piece = text.substring_char(start, i);
            let ghost done = pieces.deep_view();
            pieces.push(String::from_str(piece));
            proof {
                assert(pieces.deep_view() == done.push(piece@));
                assert(text@.subrange(i as int + 1, i as int + 1) == Seq::<char>::empty());
            }
            start = i + 1;
        } else {
            proof {
                let open = text@.subrange(start as int, i as int);
                let head = pieces.deep_view().push(open);
                assert(head.drop_last() == pieces.deep_view());
                assert(open.push(c) == text@.subrange(start as int, i as int + 1));
            }
        }
        i = i + 1;
    }
    let piece = text.substring_char(start, n);
    let ghost done = pieces.deep_view();
    pieces.push(String::from_str(piece));
    proof {
        assert(text@.take(n as int) == text@);
        assert(pieces.deep_view() == done.push(piece@));
    }
    pieces
}

/// Whether two texts are the same, character by character.
pub fn same_text(a: &str, b: &str) -> (same: bool)
    ensures
        same == (a@ == b@),
{
    let len = a.unicode_len();
    if len != b.unicode_len() {
        return false;
    }
    let mut i: usize = 0;
    while i < len
        invariant
            len == a@.len(),
            len == b@.len(),
            i <= len,
            forall|j: int| 0 <= j < i ==> a@[j] == b@[j],
        decreases len - i,
    {
        if a.get_char(i) != b.get_char(i) {
            return false;
        }
        i = i + 1;
    }
    assert(a@ =~= b@);
    true
}

} // verus!

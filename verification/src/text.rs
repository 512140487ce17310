//! Character-level text helpers: splitting on a separator, joining, prefixes
//! and occurrences, all stated over `Seq<char>`.

use vstd::prelude::*;

verus! {

/// The pieces of `s` that lie between occurrences of `sep`.
///
/// There is always at least one piece; an empty text has the single empty
/// piece, and a trailing separator is followed by an empty piece.
pub open spec fn split(s: Seq<char>, sep: char) -> Seq<Seq<char>>
    decreases s.len(),
{
    if s.len() == 0 {
        seq![Seq::<char>::empty()]
    } else {
        let init = split(s.drop_last(), sep);
        if s.last() == sep {
            init.push(Seq::<char>::empty())
        } else {
            init.drop_last().push(init.last().push(s.last()))
        }
    }
}

/// The pieces glued together with one `sep` between neighbours.
pub open spec fn join(parts: Seq<Seq<char>>, sep: char) -> Seq<char>
    decreases parts.len(),
{
    if parts.len() == 0 {
        Seq::<char>::empty()
    } else if parts.len() == 1 {
        parts[0]
    } else {
        join(parts.drop_last(), sep).push(sep) + parts.last()
    }
}

/// `needle` stands in `s` at offset `at`.
pub open spec fn occurs_at(needle: Seq<char>, s: Seq<char>, at: int) -> bool {
    &&& 0 <= at
    &&& at + needle.len() <= s.len()
    &&& s.subrange(at, at + needle.len()) == needle
}

/// `needle` stands somewhere in `s`.
pub open spec fn occurs_in(needle: Seq<char>, s: Seq<char>) -> bool {
    exists|at: int| occurs_at(needle, s, at)
}

/// `s` begins with `prefix`.
pub open spec fn has_prefix(s: Seq<char>, prefix: Seq<char>) -> bool {
    occurs_at(prefix, s, 0)
}

/// A span is a half-open range of positions `(first, past_last)`.
/// `spans` cut `s`, from position `from` to its end, at every `sep`:
/// the first span starts at `from`, the last one ends with `s`, and between
/// two neighbours stands exactly one separator.
pub open spec fn spans_cut(s: Seq<char>, from: int, spans: Seq<(usize, usize)>, sep: char) -> bool {
    &&& spans.len() >= 1
    &&& spans[0].0 == from
    &&& spans.last().1 == s.len()
    &&& forall|k: int| 0 <= k < spans.len() ==> spans[k].0 <= #[trigger] spans[k].1 <= s.len()
    &&& forall|k: int|
        0 <= k < spans.len() - 1 ==> s[(#[trigger] spans[k]).1 as int] == sep && spans[k + 1].0
            == spans[k].1 + 1
}

/// The texts that the spans select from `s`.
pub open spec fn pieces(s: Seq<char>, spans: Seq<(usize, usize)>) -> Seq<Seq<char>> {
    Seq::new(spans.len(), |k: int| s.subrange(spans[k].0 as int, spans[k].1 as int))
}

/// The characters of a string slice, in order.
pub fn chars_of(s: &str) -> (chars: Vec<char>)
    ensures
        chars@ == s@,
{
    let mut chars: Vec<char> = Vec::new();
    for c in it: s.chars()
        invariant
            it.seq() == s@,
            chars@ == it.seq().take(it.index() as int),
    {
        chars.push(c);
    }
    chars
}

/// Whether two texts are the same.
pub fn same_text(a: &str, b: &str) -> (same: bool)
    ensures
        same == (a@ == b@),
{
    let left = chars_of(a);
    let right = chars_of(b);
    if left.len() != right.len() {
        return false;
    }
    let mut i: usize = 0;
    while i < left.len()
        invariant
            i <= left.len() == right.len(),
            left@ == a@,
            right@ == b@,
            left@.take(i as int) == right@.take(i as int),
        decreases left.len() - i,
    {
        if left[i] != right[i] {
            assert(a@[i as int] != b@[i as int]);
            return false;
        }
        proof {
            assert(left@.take(i + 1) =~= left@.take(i as int).push(left@[i as int]));
            assert(right@.take(i + 1) =~= right@.take(i as int).push(right@[i as int]));
        }
        i += 1;
    }
    proof {
        assert(left@.take(i as int) =~= left@);
        assert(right@.take(i as int) =~= right@);
    }
    true
}

/// Cuts `chars`, from position `from` on, at every `sep`, and gives the
/// positions of the pieces rather than the pieces themselves.
pub fn split_spans(chars: &Vec<char>, from: usize, sep: char) -> (spans: Vec<(usize, usize)>)
    requires
        from <= chars.len(),
    ensures
        spans_cut(chars@, from as int, spans@, sep),
        pieces(chars@, spans@) == split(chars@.skip(from as int), sep),
{
    let mut spans: Vec<(usize, usize)> = Vec::new();
    let mut start: usize = from;
    let mut i: usize = from;
    proof {
        assert(chars@.subrange(from as int, i as int) =~= Seq::<char>::empty());
        assert(pieces(chars@, spans@).push(chars@.subrange(start as int, i as int)) =~= seq![
            Seq::<char>::empty(),
        ]);
    }
    while i < chars.len()
        invariant
            from <= start <= i <= chars.len(),
            forall|k: int| 0 <= k < spans.len() ==> spans[k].0 <= #[trigger] spans[k].1 < i,
            forall|k: int|
                0 <= k < spans.len() - 1 ==> chars@[(#[trigger] spans[k]).1 as int] == sep
                    && spans[k + 1].0 == spans[k].1 + 1,
            spans.len() == 0 ==> start == from,
            spans.len() > 0 ==> spans[0].0 == from && start == spans[spans.len() - 1].1 + 1
                && chars@[spans[spans.len() - 1].1 as int] == sep,
            pieces(chars@, spans@).push(chars@.subrange(start as int, i as int)) == split(
                chars@.subrange(from as int, i as int),
                sep,
            ),
        decreases chars.len() - i,
    {
        let ghost before = chars@.subrange(from as int, i as int);
        let ghost after = chars@.subrange(from as int, i + 1);
        let ghost done = pieces(chars@, spans@);
        let ghost open = chars@.subrange(start as int, i as int);
        proof {
            assert(after.drop_last() =~= before);
            assert(after.last() == chars@[i as int]);
            assert(done.push(open).drop_last() =~= done);
        }
        if chars[i] == sep {
            spans.push((start, i));
            start = i + 1;
            proof {
                assert(pieces(chars@, spans@) =~= done.push(open));
                assert(chars@.subrange(start as int, i + 1) =~= Seq::<char>::empty());
            }
        } else {
            proof {
                assert(chars@.subrange(start as int, i + 1) =~= open.push(chars@[i as int]));
            }
        }
        i += 1;
    }
    let ghost done = pieces(chars@, spans@);
    let ghost open = chars@.subrange(start as int, i as int);
    spans.push((start, i));
    proof {
        assert(pieces(chars@, spans@) =~= done.push(open));
        assert(chars@.subrange(from as int, i as int) =~= chars@.skip(from as int));
    }
    spans
}

/// Splitting always yields at least one piece.
pub proof fn lemma_split_has_piece(s: Seq<char>, sep: char)
    ensures
        split(s, sep).len() >= 1,
    decreases s.len(),
{
    if s.len() > 0 {
        lemma_split_has_piece(s.drop_last(), sep);
    }
}

/// No piece of a split holds the separator.
pub proof fn lemma_split_pieces_clean(s: Seq<char>, sep: char)
    ensures
        forall|k: int| 0 <= k < split(s, sep).len() ==> !(#[trigger] split(s, sep)[k]).contains(sep),
    decreases s.len(),
{
    if s.len() > 0 {
        lemma_split_pieces_clean(s.drop_last(), sep);
        lemma_split_has_piece(s.drop_last(), sep);
        let init = split(s.drop_last(), sep);
        if s.last() != sep {
            let grown = init.last().push(s.last());
            assert forall|j: int| 0 <= j < grown.len() implies grown[j] != sep by {
                if j < init.last().len() {
                    assert(init.last().contains(grown[j]));
                }
            }
        }
    }
}

/// Joining the pieces of a split with the same separator gives the text back.
pub proof fn lemma_join_split(s: Seq<char>, sep: char)
    ensures
        join(split(s, sep), sep) == s,
    decreases s.len(),
{
    if s.len() > 0 {
        let front = s.drop_last();
        let init = split(front, sep);
        lemma_join_split(front, sep);
        lemma_split_has_piece(front, sep);
        if s.last() == sep {
            let whole = init.push(Seq::<char>::empty());
            assert(whole.drop_last() =~= init);
            assert(join(whole, sep) =~= join(init, sep).push(sep));
            assert(front.push(sep) =~= s);
        } else {
            let grown = init.last().push(s.last());
            let whole = init.drop_last().push(grown);
            assert(whole.drop_last() =~= init.drop_last());
            if init.len() == 1 {
                assert(join(init, sep) == init[0]);
                assert(whole[0] == grown);
                assert(grown =~= s);
            } else {
                assert(join(init, sep) == join(init.drop_last(), sep).push(sep) + init.last());
                assert(join(whole, sep) == join(init.drop_last(), sep).push(sep) + grown);
                assert(join(whole, sep) =~= join(init, sep).push(s.last()));
                assert(front.push(s.last()) =~= s);
            }
        }
    }
}

/// A text without the separator is its own single piece.
pub proof fn lemma_split_clean(s: Seq<char>, sep: char)
    requires
        !s.contains(sep),
    ensures
        split(s, sep) == seq![s],
    decreases s.len(),
{
    if s.len() > 0 {
        let front = s.drop_last();
        assert forall|j: int| 0 <= j < front.len() implies front[j] != sep by {
            assert(s.contains(s[j]));
        }
        lemma_split_clean(front, sep);
        assert(s.contains(s.last()));
        assert(front.push(s.last()) =~= s);
        assert(seq![front].drop_last().push(s) =~= seq![s]);
    } else {
        assert(s =~= Seq::<char>::empty());
    }
}

/// A separator between two texts separates their pieces too.
pub proof fn lemma_split_around(a: Seq<char>, b: Seq<char>, sep: char)
    ensures
        split(a.push(sep) + b, sep) == split(a, sep) + split(b, sep),
    decreases b.len(),
{
    let whole = a.push(sep) + b;
    lemma_split_has_piece(a, sep);
    if b.len() == 0 {
        assert(whole =~= a.push(sep));
        assert(whole.drop_last() =~= a);
        assert(split(a, sep).push(Seq::<char>::empty()) =~= split(a, sep) + split(b, sep));
    } else {
        let front = b.drop_last();
        lemma_split_around(a, front, sep);
        lemma_split_has_piece(front, sep);
        assert(whole.drop_last() =~= a.push(sep) + front);
        assert(whole.last() == b.last());
        let left = split(a, sep);
        let right = split(front, sep);
        let init = left + right;
        if b.last() == sep {
            assert(init.push(Seq::<char>::empty()) =~= left + right.push(Seq::<char>::empty()));
        } else {
            assert(init.last() == right.last());
            assert(init.drop_last() =~= left + right.drop_last());
            assert(init.drop_last().push(init.last().push(b.last())) =~= left
                + right.drop_last().push(right.last().push(b.last())));
        }
    }
}

/// Joining two runs of pieces one after the other puts one separator
/// between what each of them joins to.
pub proof fn lemma_join_concat(a: Seq<Seq<char>>, b: Seq<Seq<char>>, sep: char)
    requires
        a.len() >= 1,
        b.len() >= 1,
    ensures
        join(a + b, sep) == join(a, sep).push(sep) + join(b, sep),
    decreases b.len(),
{
    let whole = a + b;
    if b.len() == 1 {
        assert(whole.drop_last() =~= a);
    } else {
        lemma_join_concat(a, b.drop_last(), sep);
        assert(whole.drop_last() =~= a + b.drop_last());
        assert(join(whole, sep) =~= join(a, sep).push(sep) + join(b, sep));
    }
}

/// Pieces that stand next to each other join to the stretch of text that
/// holds them all.
pub proof fn lemma_join_neighbours(
    s: Seq<char>,
    from: int,
    spans: Seq<(usize, usize)>,
    sep: char,
    first: int,
    past_last: int,
)
    requires
        spans_cut(s, from, spans, sep),
        0 <= first < past_last <= spans.len(),
    ensures
        spans[first].0 <= spans[past_last - 1].1,
        join(pieces(s, spans).subrange(first, past_last), sep) == s.subrange(
            spans[first].0 as int,
            spans[past_last - 1].1 as int,
        ),
    decreases past_last - first,
{
    let chosen = pieces(s, spans).subrange(first, past_last);
    if past_last == first + 1 {
        assert(chosen.len() == 1);
        assert(spans[first].0 <= spans[first].1);
    } else {
        lemma_join_neighbours(s, from, spans, sep, first, past_last - 1);
        assert(chosen.drop_last() =~= pieces(s, spans).subrange(first, past_last - 1));
        let gap = spans[past_last - 2];
        let last = spans[past_last - 1];
        assert(s[gap.1 as int] == sep && last.0 == gap.1 + 1);
        assert(last.0 <= last.1 <= s.len());
        assert(join(chosen, sep) =~= s.subrange(spans[first].0 as int, last.1 as int));
    }
}

} // verus!

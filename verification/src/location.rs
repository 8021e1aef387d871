//! Deriving a short "City, State" location from a free-text address.

use crate::text::{chars_of, is_white_space};
use vstd::prelude::*;
use vstd::string::*;

verus! {

/// The pieces of a text between its commas, empty pieces included. A text
/// with `n` commas has `n + 1` pieces.
pub open spec fn segments(s: Seq<char>) -> Seq<Seq<char>>
    decreases s.len(),
{
    if s.len() == 0 {
        seq![Seq::<char>::empty()]
    } else {
        let before = segments(s.drop_last());
        if s.last() == ',' {
            before.push(Seq::<char>::empty())
        } else {
            before.update(before.len() - 1, before.last().push(s.last()))
        }
    }
}

/// A text without its leading white space.
pub open spec fn without_leading_space(s: Seq<char>) -> Seq<char>
    decreases s.len(),
{
    if s.len() > 0 && is_white_space(s[0]) {
        without_leading_space(s.drop_first())
    } else {
        s
    }
}

/// A text without its trailing white space.
pub open spec fn without_trailing_space(s: Seq<char>) -> Seq<char>
    decreases s.len(),
{
    if s.len() > 0 && is_white_space(s.last()) {
        without_trailing_space(s.drop_last())
    } else {
        s
    }
}

/// A text without the white space at either end.
pub open spec fn trimmed(s: Seq<char>) -> Seq<char> {
    without_trailing_space(without_leading_space(s))
}

/// The longest prefix of a text that holds no white space.
pub open spec fn leading_word(s: Seq<char>) -> Seq<char>
    decreases s.len(),
{
    if s.len() > 0 && !is_white_space(s[0]) {
        seq![s[0]] + leading_word(s.drop_first())
    } else {
        Seq::<char>::empty()
    }
}

/// The first word of a text that white space delimits; empty where the text
/// holds nothing but white space.
pub open spec fn first_token(s: Seq<char>) -> Seq<char> {
    leading_word(without_leading_space(s))
}

/// The location that an address stands for.
///
/// An address with exactly one comma is taken to be a location already. One
/// without a comma is a location once trimmed. In any other address the
/// second piece, trimmed, is the city and the first word of the third piece
/// is the state or region: the location is the city, a comma, a space and
/// the state, but for a city without a state, which stands alone.
pub open spec fn location_of(address: Seq<char>) -> Seq<char> {
    let pieces = segments(address);
    if pieces.len() == 2 {
        address
    } else if pieces.len() == 1 {
        trimmed(pieces[0])
    } else {
        let city = trimmed(pieces[1]);
        let state = first_token(pieces[2]);
        if city.len() > 0 && state.len() == 0 {
            city
        } else {
            city + seq![',', ' '] + state
        }
    }
}

/// Every text has at least one piece.
pub proof fn lemma_segments_nonempty(s: Seq<char>)
    ensures
        segments(s).len() >= 1,
    decreases s.len(),
{
    if s.len() > 0 {
        lemma_segments_nonempty(s.drop_last());
    }
}

/// Pieces put together again, with a comma between each two.
pub open spec fn joined(pieces: Seq<Seq<char>>) -> Seq<char>
    decreases pieces.len(),
{
    if pieces.len() == 0 {
        Seq::<char>::empty()
    } else if pieces.len() == 1 {
        pieces[0]
    } else {
        joined(pieces.drop_last()) + seq![','] + pieces.last()
    }
}

/// The commas of a text.
pub open spec fn commas(s: Seq<char>) -> Seq<char> {
    s.filter(|c: char| c == ',')
}

/// Putting the pieces of a text together again, with a comma between each
/// two, gives the text back.
pub proof fn lemma_segments_join_to_the_text(s: Seq<char>)
    ensures
        joined(segments(s)) == s,
    decreases s.len(),
{
    if s.len() == 0 {
        assert(segments(s)[0] =~= s);
    } else {
        let before = segments(s.drop_last());
        let pieces = segments(s);
        lemma_segments_join_to_the_text(s.drop_last());
        lemma_segments_nonempty(s.drop_last());
        if s.last() == ',' {
            assert(pieces.drop_last() =~= before);
            assert(s.drop_last() + seq![','] + Seq::<char>::empty() =~= s);
        } else if before.len() == 1 {
            assert(before[0].push(s.last()) =~= s);
        } else {
            assert(pieces.drop_last() =~= before.drop_last());
            assert(joined(before.drop_last()) + seq![','] + before.last().push(s.last()) =~= (
            joined(before.drop_last()) + seq![','] + before.last()).push(s.last()));
            assert(s.drop_last().push(s.last()) =~= s);
        }
    }
}

/// No piece of a text holds a comma.
pub proof fn lemma_segments_hold_no_comma(s: Seq<char>)
    ensures
        forall|k: int, i: int|
            0 <= k < segments(s).len() && 0 <= i < segments(s)[k].len() ==> #[trigger] segments(
                s,
            )[k][i] != ',',
    decreases s.len(),
{
    if s.len() > 0 {
        lemma_segments_hold_no_comma(s.drop_last());
        lemma_segments_nonempty(s.drop_last());
        let before = segments(s.drop_last());
        let pieces = segments(s);
        assert forall|k: int, i: int|
            0 <= k < pieces.len() && 0 <= i < pieces[k].len() implies #[trigger] pieces[k][i]
            != ',' by {
            if k < before.len() - 1 {
                assert(pieces[k] == before[k]);
                assert(before[k][i] != ',');
            } else if s.last() != ',' {
                if i < before[k].len() {
                    assert(pieces[k][i] == before[k][i]);
                    assert(before[k][i] != ',');
                }
            } else if k < before.len() {
                assert(pieces[k] == before[k]);
                assert(before[k][i] != ',');
            }
        }
    }
}

/// A text has one piece more than it has commas.
pub proof fn lemma_one_more_segment_than_commas(s: Seq<char>)
    ensures
        segments(s).len() == commas(s).len() + 1,
    decreases s.len(),
{
    let is_comma = |c: char| c == ',';
    if s.len() == 0 {
        s.lemma_filter_len(is_comma);
    } else {
        lemma_one_more_segment_than_commas(s.drop_last());
        lemma_segments_nonempty(s.drop_last());
        s.drop_last().lemma_filter_push(s.last(), is_comma);
        assert(s.drop_last().push(s.last()) =~= s);
    }
}

/// An address with exactly one comma is its own location.
pub proof fn lemma_single_comma_passes_through(address: Seq<char>)
    requires
        commas(address).len() == 1,
    ensures
        location_of(address) == address,
{
    lemma_one_more_segment_than_commas(address);
}

/// An address without a comma gives itself, trimmed.
pub proof fn lemma_no_comma_is_trimmed(address: Seq<char>)
    requires
        commas(address).len() == 0,
    ensures
        location_of(address) == trimmed(address),
{
    lemma_one_more_segment_than_commas(address);
    lemma_segments_join_to_the_text(address);
}

/// What is left of a text without its trailing white space is a leading
/// part of it that does not end in white space.
proof fn lemma_without_trailing_space(s: Seq<char>)
    ensures
        without_trailing_space(s).len() <= s.len(),
        without_trailing_space(s) == s.take(without_trailing_space(s).len() as int),
        without_trailing_space(s).len() > 0 ==> !is_white_space(without_trailing_space(s).last()),
    decreases s.len(),
{
    if s.len() > 0 && is_white_space(s.last()) {
        lemma_without_trailing_space(s.drop_last());
        let kept = without_trailing_space(s);
        assert(s.drop_last().take(kept.len() as int) =~= s.take(kept.len() as int));
    } else {
        assert(s.take(s.len() as int) =~= s);
    }
}

/// What is left of a text without its leading white space does not start
/// with white space.
proof fn lemma_without_leading_space(s: Seq<char>)
    ensures
        without_leading_space(s).len() > 0 ==> !is_white_space(without_leading_space(s)[0]),
    decreases s.len(),
{
    if s.len() > 0 && is_white_space(s[0]) {
        lemma_without_leading_space(s.drop_first());
    }
}

/// A trimmed text neither starts nor ends with white space.
pub proof fn lemma_trimmed_has_no_space_at_its_ends(s: Seq<char>)
    ensures
        trimmed(s).len() > 0 ==> !is_white_space(trimmed(s)[0]) && !is_white_space(
            trimmed(s).last(),
        ),
{
    lemma_without_leading_space(s);
    lemma_without_trailing_space(without_leading_space(s));
}

/// The first word of a text holds no white space.
pub proof fn lemma_first_token_holds_no_space(s: Seq<char>)
    ensures
        forall|i: int| 0 <= i < first_token(s).len() ==> !is_white_space(#[trigger] first_token(s)[i]),
{
    lemma_leading_word_holds_no_space(without_leading_space(s));
}

proof fn lemma_leading_word_holds_no_space(s: Seq<char>)
    ensures
        forall|i: int| 0 <= i < leading_word(s).len() ==> !is_white_space(#[trigger] leading_word(s)[i]),
    decreases s.len(),
{
    if s.len() > 0 && !is_white_space(s[0]) {
        lemma_leading_word_holds_no_space(s.drop_first());
        let word = leading_word(s);
        let rest = leading_word(s.drop_first());
        assert forall|i: int| 0 <= i < word.len() implies !is_white_space(#[trigger] word[i]) by {
            if i > 0 {
                assert(word[i] == rest[i - 1]);
            }
        }
    }
}

/// Splits a text at its commas and returns, for each piece, where it starts
/// and where it ends.
pub fn split_at_commas(chars: &Vec<char>) -> (bounds: Vec<(usize, usize)>)
    ensures
        bounds@.len() == segments(chars@).len(),
        forall|k: int|
            #![trigger bounds@[k]]
            0 <= k < bounds@.len() ==> bounds@[k].0 <= bounds@[k].1 <= chars@.len() && segments(
                chars@,
            )[k] == chars@.subrange(bounds@[k].0 as int, bounds@[k].1 as int),
{
    let n: usize = chars.len();
    let mut bounds: Vec<(usize, usize)> = Vec::new();
    let mut start: usize = 0;
    let mut i: usize = 0;
    proof {
        assert(chars@.take(0) =~= Seq::<char>::empty());
        assert(segments(chars@.take(0))[0] =~= chars@.subrange(0, 0));
    }
    while i < n
        invariant
            n == chars@.len(),
            start <= i <= n,
            bounds@.len() + 1 == segments(chars@.take(i as int)).len(),
            segments(chars@.take(i as int)).last() == chars@.subrange(start as int, i as int),
            forall|k: int|
                #![trigger bounds@[k]]
                0 <= k < bounds@.len() ==> bounds@[k].0 <= bounds@[k].1 <= n && segments(
                    chars@.take(i as int),
                )[k] == chars@.subrange(bounds@[k].0 as int, bounds@[k].1 as int),
        decreases n - i,
    {
        let ghost before = segments(chars@.take(i as int));
        let ghost after = segments(chars@.take(i + 1));
        proof {
            assert(chars@.take(i + 1).drop_last() =~= chars@.take(i as int));
            assert(chars@.take(i + 1).last() == chars@[i as int]);
        }
        if chars[i] == ',' {
            proof {
                assert(after == before.push(Seq::<char>::empty()));
                assert(chars@.subrange(i + 1, i + 1) =~= Seq::<char>::empty());
            }
            bounds.push((start, i));
            start = i + 1;
        } else {
            proof {
                assert(after == before.update(before.len() - 1, before.last().push(chars@[i as int])));
                assert(chars@.subrange(start as int, i + 1) =~= chars@.subrange(
                    start as int,
                    i as int,
                ).push(chars@[i as int]));
            }
        }
        i = i + 1;
    }
    proof {
        assert(chars@.take(n as int) =~= chars@);
    }
    bounds.push((start, n));
    bounds
}

/// Finds where the white space that leads the range `from..to` ends.
fn skip_leading_space(chars: &Vec<char>, from: usize, to: usize) -> (k: usize)
    requires
        from <= to <= chars@.len(),
    ensures
        from <= k <= to,
        chars@.subrange(k as int, to as int) == without_leading_space(
            chars@.subrange(from as int, to as int),
        ),
{
    let mut k: usize = from;
    while k < to && chars[k].is_whitespace()
        invariant
            from <= k <= to <= chars@.len(),
            without_leading_space(chars@.subrange(k as int, to as int)) == without_leading_space(
                chars@.subrange(from as int, to as int),
            ),
        decreases to - k,
    {
        proof {
            assert(chars@.subrange(k as int, to as int).drop_first() =~= chars@.subrange(
                k + 1,
                to as int,
            ));
        }
        k = k + 1;
    }
    k
}

/// Finds where the white space that trails the range `from..to` starts.
fn skip_trailing_space(chars: &Vec<char>, from: usize, to: usize) -> (k: usize)
    requires
        from <= to <= chars@.len(),
    ensures
        from <= k <= to,
        chars@.subrange(from as int, k as int) == without_trailing_space(
            chars@.subrange(from as int, to as int),
        ),
{
    let mut k: usize = to;
    while k > from && chars[k - 1].is_whitespace()
        invariant
            from <= k <= to <= chars@.len(),
            without_trailing_space(chars@.subrange(from as int, k as int))
                == without_trailing_space(chars@.subrange(from as int, to as int)),
        decreases k - from,
    {
        proof {
            assert(chars@.subrange(from as int, k as int).drop_last() =~= chars@.subrange(
                from as int,
                k - 1,
            ));
        }
        k = k - 1;
    }
    k
}

/// Finds where the word that starts the range `from..to` ends.
fn leading_word_end(chars: &Vec<char>, from: usize, to: usize) -> (k: usize)
    requires
        from <= to <= chars@.len(),
    ensures
        from <= k <= to,
        chars@.subrange(from as int, k as int) == leading_word(
            chars@.subrange(from as int, to as int),
        ),
{
    let mut k: usize = from;
    while k < to && !chars[k].is_whitespace()
        invariant
            from <= k <= to <= chars@.len(),
            leading_word(chars@.subrange(from as int, to as int)) == chars@.subrange(
                from as int,
                k as int,
            ) + leading_word(chars@.subrange(k as int, to as int)),
        decreases to - k,
    {
        proof {
            assert(chars@.subrange(k as int, to as int).drop_first() =~= chars@.subrange(
                k + 1,
                to as int,
            ));
            assert(chars@.subrange(from as int, k as int) + seq![chars@[k as int]]
                =~= chars@.subrange(from as int, k + 1));
            assert(chars@.subrange(from as int, k as int) + (seq![chars@[k as int]] + leading_word(
                chars@.subrange(k + 1, to as int),
            )) =~= chars@.subrange(from as int, k + 1) + leading_word(
                chars@.subrange(k + 1, to as int),
            ));
        }
        k = k + 1;
    }
    proof {
        assert(chars@.subrange(from as int, k as int) + Seq::<char>::empty() =~= chars@.subrange(
            from as int,
            k as int,
        ));
    }
    k
}

/// Finds the range within `from..to` that is left once the white space at
/// both ends is gone.
pub fn trimmed_range(chars: &Vec<char>, from: usize, to: usize) -> (range: (usize, usize))
    requires
        from <= to <= chars@.len(),
    ensures
        from <= range.0 <= range.1 <= to,
        chars@.subrange(range.0 as int, range.1 as int) == trimmed(
            chars@.subrange(from as int, to as int),
        ),
{
    let first: usize = skip_leading_space(chars, from, to);
    let last: usize = skip_trailing_space(chars, first, to);
    (first, last)
}

/// Finds the range within `from..to` that holds its first word.
pub fn first_token_range(chars: &Vec<char>, from: usize, to: usize) -> (range: (usize, usize))
    requires
        from <= to <= chars@.len(),
    ensures
        from <= range.0 <= range.1 <= to,
        chars@.subrange(range.0 as int, range.1 as int) == first_token(
            chars@.subrange(from as int, to as int),
        ),
{
    let first: usize = skip_leading_space(chars, from, to);
    let last: usize = leading_word_end(chars, first, to);
    (first, last)
}

/// Appends the characters of the range `from..to` to a text.
pub fn push_range(out: &mut String, chars: &Vec<char>, from: usize, to: usize)
    requires
        from <= to <= chars@.len(),
    ensures
        final(out)@ == old(out)@ + chars@.subrange(from as int, to as int),
{
    let mut k: usize = from;
    proof {
        assert(out@ + chars@.subrange(from as int, from as int) =~= out@);
    }
    while k < to
        invariant
            from <= k <= to <= chars@.len(),
            out@ == old(out)@ + chars@.subrange(from as int, k as int),
        decreases to - k,
    {
        out.push(chars[k]);
        proof {
            assert(chars@.subrange(from as int, k + 1) =~= chars@.subrange(
                from as int,
                k as int,
            ).push(chars@[k as int]));
            assert((old(out)@ + chars@.subrange(from as int, k as int)).push(chars@[k as int])
                =~= old(out)@ + chars@.subrange(from as int, k + 1));
        }
        k = k + 1;
    }
}

/// Derives a short location from a free-text address.
///
/// Never fails: an address that does not look like `Street, City, State`
/// yields what can be made of it, down to the empty text.
pub fn extract_location(address: &str) -> (location: String)
    ensures
        location@ == location_of(address@),
{
    let chars: Vec<char> = chars_of(address);
    let bounds: Vec<(usize, usize)> = split_at_commas(&chars);
    if bounds.len() == 2 {
        return String::from_str(address);
    }
    let mut location: String = String::new();
    if bounds.len() == 1 {
        let (from, to) = trimmed_range(&chars, bounds[0].0, bounds[0].1);
        push_range(&mut location, &chars, from, to);
        return location;
    }
    proof {
        lemma_segments_nonempty(chars@);
    }
    let (city_from, city_to) = trimmed_range(&chars, bounds[1].0, bounds[1].1);
    let (state_from, state_to) = first_token_range(&chars, bounds[2].0, bounds[2].1);
    push_range(&mut location, &chars, city_from, city_to);
    if city_from == city_to || state_from < state_to {
        location.push(',');
        location.push(' ');
        push_range(&mut location, &chars, state_from, state_to);
        proof {
            let city = chars@.subrange(city_from as int, city_to as int);
            let state = chars@.subrange(state_from as int, state_to as int);
            assert(location@ =~= city + seq![',', ' '] + state);
        }
    }
    location
}

} // verus!
